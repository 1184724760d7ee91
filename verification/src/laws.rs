//! Stream-level guarantees of the extraction automaton.
//!
//! Each public proof function here states, over the abstract machine of
//! [`crate::machine`], a law that holds of every input, not merely of the
//! concrete scenarios exercised by the tests.

use vstd::prelude::*;

use crate::machine::Machine;
use crate::machine::Phase;
use crate::machine::extract;
use crate::machine::init;
use crate::machine::lemma_run_append;
use crate::machine::lemma_run_snoc;
use crate::machine::quotes;
use crate::machine::run;
use crate::machine::step;

verus! {

/// While searching, input without the quote character is consumed without
/// ever opening a fence: the phase, the buffer and the found literals are
/// all left as they were.
pub proof fn lemma_searching_skips_unquoted(m: Machine, s: Seq<char>)
    requires
        m.phase is Searching,
        forall|i: int| 0 <= i < s.len() ==> s[i] != '"',
    ensures
        run(m, s).phase is Searching,
        run(m, s).found == m.found,
        run(m, s).buffer == m.buffer,
    decreases s.len(),
{
    if s.len() > 0 {
        assert(forall|i: int| 0 <= i < s.drop_first().len() ==> s.drop_first()[i] == s[i + 1]);
        lemma_searching_skips_unquoted(step(m, s[0]), s.drop_first());
    }
}

/// An input containing no quote character yields nothing.
pub proof fn lemma_no_quote_no_literal(s: Seq<char>)
    requires
        forall|i: int| 0 <= i < s.len() ==> s[i] != '"',
    ensures
        extract(s) == Seq::<Seq<char>>::empty(),
{
    lemma_searching_skips_unquoted(init(), s);
}

/// Extraction is not self-recursive: a literal already extracted that
/// contains no quote character yields nothing when run through the
/// automaton again.
pub proof fn lemma_extract_not_recursive(s: Seq<char>, i: int)
    requires
        0 <= i < extract(s).len(),
        forall|j: int| 0 <= j < extract(s)[i].len() ==> extract(s)[i][j] != '"',
    ensures
        extract(extract(s)[i]) == Seq::<Seq<char>>::empty(),
{
    lemma_no_quote_no_literal(extract(s)[i]);
}

/// A closing attempt that is still short of an exact match falls back into
/// the literal when a non-quote arrives: the quotes the attempt consumed
/// are restored to the buffer, the non-quote is handled as content, and
/// nothing is yielded.
proof fn lemma_close_attempt_falls_short(m: Machine, n: nat, r: nat, k: nat, c: char)
    requires
        m.phase == (Phase::CountingEnd { fence: n, remaining: r }),
        !m.ignoring,
        1 <= r <= n,
        k < r,
        c != '"',
    ensures
        run(m, quotes(k).push(c)).phase == (Phase::InsideString { fence: n }),
        run(m, quotes(k).push(c)).buffer == (m.buffer + quotes((n - r + k) as nat)).push(c),
        run(m, quotes(k).push(c)).found == m.found,
        run(m, quotes(k).push(c)).ignoring == (c == '\\'),
    decreases k,
{
    if k == 0 {
        assert(quotes(0).push(c) =~= seq![c]);
        assert(run(m, seq![c]) == run(step(m, c), seq![c].drop_first()));
        assert(seq![c].drop_first() =~= Seq::<char>::empty());
    } else {
        let s = quotes(k).push(c);
        assert(s[0] == '"');
        assert(s.drop_first() =~= quotes((k - 1) as nat).push(c));
        let m1 = step(m, '"');
        assert(m1.phase == (Phase::CountingEnd { fence: n, remaining: (r - 1) as nat }));
        lemma_close_attempt_falls_short(m1, n, (r - 1) as nat, (k - 1) as nat, c);
    }
}

/// A fence tolerates any interior run of fewer quote characters than its
/// own length: the run is kept literally in the content, the character
/// that cut the run short is handled as content, the literal stays open,
/// and nothing is yielded.
pub proof fn lemma_short_run_stays_inside(m: Machine, n: nat, k: nat, c: char)
    requires
        m.phase == (Phase::InsideString { fence: n }),
        !m.ignoring,
        k < n,
        c != '"',
    ensures
        run(m, quotes(k).push(c)).phase == (Phase::InsideString { fence: n }),
        run(m, quotes(k).push(c)).buffer == (m.buffer + quotes(k)).push(c),
        run(m, quotes(k).push(c)).found == m.found,
        run(m, quotes(k).push(c)).ignoring == (c == '\\'),
{
    if k == 0 {
        assert(quotes(0).push(c) =~= seq![c]);
        assert(run(m, seq![c]) == run(step(m, c), seq![c].drop_first()));
        assert(seq![c].drop_first() =~= Seq::<char>::empty());
        assert(m.buffer + quotes(0) =~= m.buffer);
    } else {
        let s = quotes(k).push(c);
        assert(s[0] == '"');
        assert(s.drop_first() =~= quotes((k - 1) as nat).push(c));
        let m1 = step(m, '"');
        assert(m1.phase == (Phase::CountingEnd { fence: n, remaining: (n - 1) as nat }));
        lemma_close_attempt_falls_short(m1, n, (n - 1) as nat, (k - 1) as nat, c);
        assert((n - (n - 1) + (k - 1)) as nat == k);
    }
}

/// Inside a fence, content free of the quote and escape characters is
/// appended verbatim and closes nothing.
proof fn lemma_inside_plain_content(m: Machine, n: nat, t: Seq<char>)
    requires
        m.phase == (Phase::InsideString { fence: n }),
        !m.ignoring,
        forall|i: int| 0 <= i < t.len() ==> t[i] != '"' && t[i] != '\\',
    ensures
        run(m, t).phase == (Phase::InsideString { fence: n }),
        !run(m, t).ignoring,
        run(m, t).buffer == m.buffer + t,
        run(m, t).found == m.found,
    decreases t.len(),
{
    if t.len() == 0 {
        assert(m.buffer + t =~= m.buffer);
    } else {
        assert(forall|i: int| 0 <= i < t.drop_first().len() ==> t.drop_first()[i] == t[i + 1]);
        lemma_inside_plain_content(step(m, t[0]), n, t.drop_first());
        assert(m.buffer.push(t[0]) + t.drop_first() =~= m.buffer + t);
    }
}

/// A single-quote fenced literal with plain content round-trips its
/// interior exactly: a quote, content free of the quote and escape
/// characters, and a closing quote yield that content as the one literal.
pub proof fn lemma_single_fence_round_trip(t: Seq<char>)
    requires
        t.len() >= 1,
        forall|i: int| 0 <= i < t.len() ==> t[i] != '"' && t[i] != '\\',
    ensures
        extract(seq!['"'] + t + seq!['"']) == seq![t],
{
    lemma_run_append(init(), seq!['"'] + t, seq!['"']);
    lemma_run_append(init(), seq!['"'], t);
    assert(seq!['"'] =~= Seq::<char>::empty().push('"'));
    lemma_run_snoc(init(), Seq::<char>::empty(), '"');
    assert(run(init(), Seq::<char>::empty()) == init());
    let m1 = step(init(), '"');
    assert(m1.phase == (Phase::CountingStart { seen: 1 }));
    assert(run(m1, t) == run(step(m1, t[0]), t.drop_first()));
    let m2 = step(m1, t[0]);
    assert(m2.phase == (Phase::InsideString { fence: 1 }));
    assert(m2.buffer == Seq::<char>::empty().push(t[0]));
    assert(forall|i: int| 0 <= i < t.drop_first().len() ==> t.drop_first()[i] == t[i + 1]);
    lemma_inside_plain_content(m2, 1, t.drop_first());
    let m3 = run(m2, t.drop_first());
    assert(m3.buffer =~= t) by {
        assert(Seq::<char>::empty().push(t[0]) + t.drop_first() =~= t);
    };
    assert(run(m3, seq!['"']) == run(step(m3, '"'), seq!['"'].drop_first()));
    assert(seq!['"'].drop_first() =~= Seq::<char>::empty());
    assert(step(m3, '"').found =~= seq![t]) by {
        assert(Seq::<Seq<char>>::empty().push(t) =~= seq![t]);
    };
}

/// The found literals are write-only: a run behaves the same whatever was
/// already found, and only appends to it.
proof fn lemma_run_found_shift(m: Machine, s: Seq<char>)
    ensures
        ({
            let m0 = Machine { found: Seq::empty(), ..m };
            &&& run(m, s).phase == run(m0, s).phase
            &&& run(m, s).ignoring == run(m0, s).ignoring
            &&& run(m, s).buffer == run(m0, s).buffer
            &&& run(m, s).found == m.found + run(m0, s).found
        }),
    decreases s.len(),
{
    let m0 = Machine { found: Seq::empty(), ..m };
    if s.len() == 0 {
        assert(m.found + Seq::<Seq<char>>::empty() =~= m.found);
    } else {
        let c = s[0];
        let a1 = step(m, c);
        let b1 = step(m0, c);
        assert(a1.phase == b1.phase && a1.ignoring == b1.ignoring && a1.buffer == b1.buffer
            && a1.found == m.found + b1.found) by {
            assert(m.found + Seq::<Seq<char>>::empty() =~= m.found);
            assert(m.found + Seq::<Seq<char>>::empty().push(m.buffer) =~= m.found.push(m.buffer));
        };
        lemma_run_found_shift(a1, s.drop_first());
        lemma_run_found_shift(b1, s.drop_first());
        assert((Machine { found: Seq::empty(), ..a1 }) =~= (Machine { found: Seq::empty(), ..b1 }));
        let x = run(Machine { found: Seq::empty(), ..b1 }, s.drop_first()).found;
        assert(m.found + (b1.found + x) =~= (m.found + b1.found) + x);
    }
}

/// Between literals, nothing is buffered: whenever the automaton is
/// searching, the content buffer is empty.
proof fn lemma_searching_empty_buffer(s: Seq<char>)
    ensures
        run(init(), s).phase is Searching ==> run(init(), s).buffer == Seq::<char>::empty(),
{
    lemma_searching_empty_buffer_from(init(), s);
}

/// Helper carrying the searching-means-empty-buffer invariant through a run.
proof fn lemma_searching_empty_buffer_from(m: Machine, s: Seq<char>)
    requires
        m.phase is Searching ==> m.buffer == Seq::<char>::empty(),
    ensures
        run(m, s).phase is Searching ==> run(m, s).buffer == Seq::<char>::empty(),
    decreases s.len(),
{
    if s.len() > 0 {
        lemma_searching_empty_buffer_from(step(m, s[0]), s.drop_first());
    }
}

/// Disjoint literals are yielded in left-to-right order: with the automaton
/// between literals at the seam, the literals of a concatenation are those
/// of the first part followed by those of the second, in order.
pub proof fn lemma_disjoint_literals_in_order(s1: Seq<char>, s2: Seq<char>)
    requires
        run(init(), s1).phase is Searching,
        !run(init(), s1).ignoring,
    ensures
        extract(s1 + s2) == extract(s1) + extract(s2),
{
    lemma_run_append(init(), s1, s2);
    let m = run(init(), s1);
    lemma_searching_empty_buffer(s1);
    lemma_run_found_shift(m, s2);
    assert((Machine { found: Seq::empty(), ..m }) =~= init());
}

/// A line break is ordinary content: inside a fence it is appended to the
/// literal like any other non-quote, non-escape character, so one literal
/// spans it without closing.
pub proof fn lemma_line_break_is_content(m: Machine, n: nat)
    requires
        m.phase == (Phase::InsideString { fence: n }),
        !m.ignoring,
    ensures
        run(m, seq!['\n']).phase == (Phase::InsideString { fence: n }),
        run(m, seq!['\n']).buffer == m.buffer.push('\n'),
        run(m, seq!['\n']).found == m.found,
        !run(m, seq!['\n']).ignoring,
{
    assert(seq!['\n'] =~= Seq::<char>::empty().push('\n'));
    lemma_run_snoc(m, Seq::<char>::empty(), '\n');
    assert(run(m, Seq::<char>::empty()) == m);
}

/// Escaping outside any fence suppresses fence-opening for the escaped
/// character: while searching, an escape character followed by any
/// character — the quote character included — opens nothing and changes
/// nothing.
pub proof fn lemma_escape_outside_suppresses(m: Machine, c: char)
    requires
        m.phase is Searching,
        !m.ignoring,
    ensures
        run(m, seq!['\\', c]).phase is Searching,
        !run(m, seq!['\\', c]).ignoring,
        run(m, seq!['\\', c]).found == m.found,
        run(m, seq!['\\', c]).buffer == m.buffer,
{
    let s = seq!['\\', c];
    assert(s =~= Seq::<char>::empty().push('\\').push(c));
    lemma_run_snoc(m, Seq::<char>::empty().push('\\'), c);
    lemma_run_snoc(m, Seq::<char>::empty(), '\\');
    assert(run(m, Seq::<char>::empty()) == m);
    assert(run(m, s) == step(step(m, '\\'), c));
}

/// Escaping inside a fence preserves both the escape marker and the escaped
/// character literally in the content — the quote character included — and
/// neither closes the fence nor yields anything.
pub proof fn lemma_escape_inside_preserved(m: Machine, n: nat, c: char)
    requires
        m.phase == (Phase::InsideString { fence: n }),
        !m.ignoring,
    ensures
        run(m, seq!['\\', c]).phase == (Phase::InsideString { fence: n }),
        !run(m, seq!['\\', c]).ignoring,
        run(m, seq!['\\', c]).found == m.found,
        run(m, seq!['\\', c]).buffer == m.buffer.push('\\').push(c),
{
    let s = seq!['\\', c];
    assert(s =~= Seq::<char>::empty().push('\\').push(c));
    lemma_run_snoc(m, Seq::<char>::empty().push('\\'), c);
    lemma_run_snoc(m, Seq::<char>::empty(), '\\');
    assert(run(m, Seq::<char>::empty()) == m);
    assert(run(m, s) == step(step(m, '\\'), c));
}

/// Counting an opening run, further quotes only lengthen it.
proof fn lemma_counting_start_quotes(m: Machine, seen: nat, j: nat)
    requires
        m.phase == (Phase::CountingStart { seen }),
    ensures
        run(m, quotes(j)).phase == (Phase::CountingStart { seen: seen + j }),
        run(m, quotes(j)).found == m.found,
        run(m, quotes(j)).buffer == m.buffer,
        run(m, quotes(j)).ignoring == m.ignoring,
    decreases j,
{
    if j == 0 {
        assert(quotes(0) =~= Seq::<char>::empty());
    } else {
        assert(quotes(j)[0] == '"');
        assert(quotes(j).drop_first() =~= quotes((j - 1) as nat));
        lemma_counting_start_quotes(step(m, '"'), seen + 1, (j - 1) as nat);
    }
}

/// Inside a fence, quote-free input keeps the literal open and yields
/// nothing, whatever escapes it contains.
proof fn lemma_inside_no_quote(m: Machine, n: nat, t: Seq<char>)
    requires
        m.phase == (Phase::InsideString { fence: n }),
        forall|i: int| 0 <= i < t.len() ==> t[i] != '"',
    ensures
        run(m, t).phase == (Phase::InsideString { fence: n }),
        run(m, t).found == m.found,
    decreases t.len(),
{
    if t.len() > 0 {
        assert(forall|i: int| 0 <= i < t.drop_first().len() ==> t.drop_first()[i] == t[i + 1]);
        lemma_inside_no_quote(step(m, t[0]), n, t.drop_first());
    }
}

/// An unterminated fence at the end of the input yields no literal for the
/// dangling portion: with the automaton between literals after `s`, a
/// trailing opening run followed by quote-free text adds nothing to what
/// `s` alone yields.
pub proof fn lemma_unterminated_fence(s: Seq<char>, k: nat, t: Seq<char>)
    requires
        run(init(), s).phase is Searching,
        !run(init(), s).ignoring,
        1 <= k,
        forall|i: int| 0 <= i < t.len() ==> t[i] != '"',
    ensures
        extract(s + quotes(k) + t) == extract(s),
{
    let m = run(init(), s);
    assert(s + quotes(k) + t =~= s + (quotes(k) + t));
    lemma_run_append(init(), s, quotes(k) + t);
    lemma_run_append(m, quotes(k), t);
    assert((quotes(k) + t).take(k as int) =~= quotes(k));
    assert((quotes(k) + t).skip(k as int) =~= t);
    assert(quotes(k)[0] == '"');
    assert(quotes(k).drop_first() =~= quotes((k - 1) as nat));
    let m1 = step(m, '"');
    assert(m1.phase == (Phase::CountingStart { seen: 1 }));
    assert(m1.found == m.found);
    assert(m1.ignoring == m.ignoring);
    lemma_counting_start_quotes(m1, 1, (k - 1) as nat);
    let m2 = run(m1, quotes((k - 1) as nat));
    assert(run(m, quotes(k)) == m2) by {
        assert(run(m, quotes(k)) == run(step(m, quotes(k)[0]), quotes(k).drop_first()));
    }
    if t.len() == 0 {
        assert(t =~= Seq::<char>::empty());
        assert(run(m2, t) == m2);
    } else {
        let m3 = step(m2, t[0]);
        assert(m3.phase == (Phase::InsideString { fence: (1 + (k - 1)) as nat }));
        assert(m3.found == m2.found);
        assert(forall|i: int| 0 <= i < t.drop_first().len() ==> t.drop_first()[i] == t[i + 1]);
        lemma_inside_no_quote(m3, (1 + (k - 1)) as nat, t.drop_first());
        assert(run(m2, t) == run(m3, t.drop_first()));
    }
}

} // verus!
