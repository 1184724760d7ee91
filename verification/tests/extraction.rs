use string_finder::finder::StringFinder;
use string_finder::finder::Strings;

fn extract_all(input: &str) -> Vec<String> {
    let chars: Vec<char> = input.chars().collect();
    let mut finder = StringFinder::from(chars);
    finder.all_strings()
}

#[test]
fn simple_string() {
    let chars: Vec<char> = r#"This is a "test" string!"#.chars().collect();
    let mut finder = StringFinder::from(chars);
    assert_eq!(vec!["test"], finder.all_strings());
}

#[test]
fn multiple_strings_per_line() {
    let chars: Vec<char> = r#"This "is" a "test" string!"#.chars().collect();
    let mut finder = StringFinder::from(chars);
    assert_eq!(vec!["is", "test"], finder.all_strings());
}

#[test]
fn escaped_quotes_before_string() {
    let chars: Vec<char> = r#"This \" is a "test""#.chars().collect();
    let mut finder = StringFinder::from(chars);
    assert_eq!(vec!["test"], finder.all_strings());
}

#[test]
fn escaped_quotes_inside_string() {
    let chars: Vec<char> = r#"This is a "huge \"test\"""#.chars().collect();
    let mut finder = StringFinder::from(chars);
    assert_eq!(vec![r#"huge \"test\""#], finder.all_strings());
}

#[test]
fn tripe_quote_string() {
    let chars: Vec<char> = r#"This is a """triple "super" test""""#.chars().collect();
    let mut finder = StringFinder::from(chars);
    assert_eq!(vec![r#"triple "super" test"#], finder.all_strings());
}

#[test]
fn leading_escaped_string() {
    let chars: Vec<char> = r#"There is a little \"trick "going on" here"#.chars().collect();
    let mut finder = StringFinder::from(chars);
    assert_eq!(vec!["going on"], finder.all_strings());
}

#[test]
fn multi_line_string() {
    let chars: Vec<char> = "There's a \"multi\nline\" string in this one!".chars().collect();
    let mut finder = StringFinder::from(chars);
    assert_eq!(vec!["multi\nline"], finder.all_strings());
}

#[test]
fn multiple_lines() {
    let lines: String = vec![
        r#"This is a "simple" one!"#.to_string(),
        r#"This is a \""tougher" one!"#.to_string(),
        r#"There are """triple quotes""" in ""this"" one!"#.to_string(),
        "There is a \"multi\nline\" string in this one!".to_string(),
    ]
    .join("\n");
    let chars: Vec<char> = lines.chars().collect();
    let mut finder = StringFinder::from(chars);
    assert_eq!(
        vec!["simple", "tougher", "triple quotes", "this", "multi\nline"],
        finder.all_strings()
    );
}

#[test]
fn no_quote_input_yields_nothing() {
    assert_eq!(Vec::<String>::new(), extract_all("nothing here opens a fence, not even \\ this"));
}

#[test]
fn empty_input_yields_nothing() {
    assert_eq!(Vec::<String>::new(), extract_all(""));
}

#[test]
fn single_fence_round_trips_interior() {
    assert_eq!(vec!["hi"], extract_all(r#"He said "hi""#));
}

#[test]
fn disjoint_literals_come_in_order() {
    assert_eq!(vec!["is", "test"], extract_all(r#"This "is" a "test""#));
}

#[test]
fn fence_tolerates_shorter_interior_run() {
    assert_eq!(vec![r#"triple "super" test"#], extract_all(r#""""triple "super" test""" done"#));
}

#[test]
fn escape_outside_suppresses_fence_opening() {
    assert_eq!(vec!["test"], extract_all(r#"This \" is a "test""#));
}

#[test]
fn escape_inside_keeps_marker_and_character() {
    assert_eq!(vec![r#"huge \"test\""#], extract_all(r#""huge \"test\"" over"#));
}

#[test]
fn line_break_stays_inside_one_literal() {
    assert_eq!(vec!["multi\nline"], extract_all("\"multi\nline\""));
}

#[test]
fn rerun_on_quote_free_output_yields_nothing() {
    let first = extract_all(r#"This "is" a "test" string!"#);
    assert_eq!(vec!["is", "test"], first);
    for literal in first {
        assert!(!literal.contains('"'));
        assert_eq!(Vec::<String>::new(), extract_all(&literal));
    }
}

#[test]
fn dangling_fence_yields_nothing() {
    assert_eq!(Vec::<String>::new(), extract_all(r#"a "dangling"#));
}

#[test]
fn dangling_fence_after_complete_literal() {
    assert_eq!(vec!["done"], extract_all(r#""done" and then "dangling"#));
}

#[test]
fn trailing_escape_degrades_gracefully() {
    assert_eq!(Vec::<String>::new(), extract_all("ends with an escape \\"));
}

#[test]
fn close_consumes_exact_fence_and_reopens() {
    // After the two-quote fence around `a` closes, the very next quotes
    // open a fresh fence of length one around `b`.
    assert_eq!(vec!["a", "b"], extract_all(r#"""a"""b" tail"#));
}

#[test]
fn next_pulls_literals_one_at_a_time() {
    let chars: Vec<char> = r#"This "is" a "test" string!"#.chars().collect();
    let mut finder = chars.words();
    assert_eq!(Some("is".to_string()), finder.next());
    assert_eq!(Some("test".to_string()), finder.next());
    assert_eq!(None, finder.next());
    assert_eq!(None, finder.next());
}
