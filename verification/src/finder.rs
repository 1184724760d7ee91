//! The executable fence extraction automaton.
//!
//! [`StringFinder`] consumes an owned sequence of characters and yields the
//! content of each fenced literal as it closes. Every step is proved equal
//! to a step of the abstract machine in [`crate::machine`], so what a whole
//! pass yields is exactly [`crate::machine::extract`] of the source.

use vstd::prelude::*;

use crate::machine::Machine;
use crate::machine::Phase;
use crate::machine::extract;
use crate::machine::init;
use crate::machine::lemma_run_append;
use crate::machine::lemma_run_extends;
use crate::machine::lemma_run_phase_inv;
use crate::machine::lemma_run_seen_bound;
use crate::machine::lemma_run_snoc;
use crate::machine::phase_inv;
use crate::machine::quotes;
use crate::machine::run;
use crate::machine::step;
use crate::machine::step_count_end;
use crate::machine::step_count_start;
use crate::machine::step_inside;
use crate::machine::step_search;

verus! {

/// Execution-side phase of the automaton; mirrors [`Phase`] with
/// machine-sized counters.
#[derive(Clone, Copy)]
enum State {
    Searching,
    CountingStart { seen: usize },
    InsideString { fence: usize },
    CountingEnd { fence: usize, remaining: usize },
}

impl State {
    /// Abstraction to the specification phase.
    spec fn phase(self) -> Phase {
        match self {
            State::Searching => Phase::Searching,
            State::CountingStart { seen } => Phase::CountingStart { seen: seen as nat },
            State::InsideString { fence } => Phase::InsideString { fence: fence as nat },
            State::CountingEnd { fence, remaining } => Phase::CountingEnd {
                fence: fence as nat,
                remaining: remaining as nat,
            },
        }
    }
}

/// The fence extraction automaton over an owned character source.
///
/// Created once per input with [`StringFinder::from`]; each call of
/// [`StringFinder::next`] advances through the source until the next
/// literal closes and hands its content out.
pub struct StringFinder {
    chars: Vec<char>,
    pos: usize,
    state: State,
    ignoring: bool,
    buffer: Vec<char>,
    pending: Option<Vec<char>>,
    yielded: Ghost<Seq<Seq<char>>>,
}

/// Relies on String::push: appends the given character to the end of the
/// string.
#[verifier::external_body]
fn push_char(s: &mut String, c: char)
    ensures
        final(s)@ == old(s)@.push(c),
{
    s.push(c);
}

/// Builds a string holding exactly the given characters.
fn to_text(v: &Vec<char>) -> (s: String)
    ensures
        s@ == v@,
{
    let mut s = String::new();
    let mut i: usize = 0;
    proof {
        assert(v@.take(0) =~= Seq::<char>::empty());
    }
    while i < v.len()
        invariant
            i <= v.len(),
            s@ == v@.take(i as int),
        decreases v.len() - i,
    {
        push_char(&mut s, v[i]);
        proof {
            assert(v@.take(i + 1) =~= v@.take(i as int).push(v@[i as int]));
        }
        i = i + 1;
    }
    proof {
        assert(v@.take(v@.len() as int) =~= v@);
    }
    s
}

impl StringFinder {
    /// The full character stream this automaton was created over.
    pub closed spec fn source(self) -> Seq<char> {
        self.chars@
    }

    /// The literals handed out so far, in order of appearance.
    pub closed spec fn yielded(self) -> Seq<Seq<char>> {
        self.yielded@
    }

    /// The abstract machine this value stands for: the literal closed but
    /// not yet handed out, if any, counts as found.
    spec fn machine(self) -> Machine {
        Machine {
            phase: self.state.phase(),
            ignoring: self.ignoring,
            buffer: self.buffer@,
            found: match self.pending {
                Some(v) => self.yielded@.push(v@),
                None => self.yielded@,
            },
        }
    }

    /// The automaton state is exactly the abstract machine run over the
    /// consumed prefix of the source.
    spec fn in_sync(self) -> bool {
        &&& self.pos <= self.chars@.len()
        &&& self.machine() == run(init(), self.chars@.take(self.pos as int))
    }

    /// Well-formed between calls: in sync with the abstract machine, with
    /// no literal waiting to be handed out.
    pub closed spec fn wf(self) -> bool {
        &&& self.in_sync()
        &&& self.pending is None
    }

    /// Creates an automaton over the given characters, at the start of the
    /// stream with nothing found yet.
    pub fn from(chars: Vec<char>) -> (r: StringFinder)
        ensures
            r.wf(),
            r.source() == chars@,
            r.yielded() == Seq::<Seq<char>>::empty(),
    {
        let r = StringFinder {
            chars,
            pos: 0,
            state: State::Searching,
            ignoring: false,
            buffer: Vec::new(),
            pending: None,
            yielded: Ghost(Seq::empty()),
        };
        proof {
            assert(r.chars@.take(0) =~= Seq::<char>::empty());
            assert(r.machine() =~= init());
        }
        r
    }

    /// Headroom for the one counter that grows while consuming input.
    spec fn can_count(self) -> bool {
        match self.state {
            State::CountingStart { seen } => seen < usize::MAX,
            _ => true,
        }
    }

    /// Everything a single character step leaves untouched.
    spec fn same_frame(self, o: StringFinder) -> bool {
        &&& o.chars == self.chars
        &&& o.pos == self.pos
        &&& o.yielded == self.yielded
    }

    /// Feeds one character to the automaton, dispatched on the phase.
    fn process_char(&mut self, c: char)
        requires
            phase_inv(old(self).state.phase()),
            old(self).can_count(),
            old(self).pending is None,
        ensures
            final(self).machine() == step(old(self).machine(), c),
            old(self).same_frame(*final(self)),
        decreases 2int,
    {
        match self.state {
            State::Searching => self.search(c),
            State::CountingStart { .. } => self.count_start(c),
            State::InsideString { .. } => self.inside_string(c),
            State::CountingEnd { .. } => self.count_end(c),
        }
    }

    /// Searching: an escaped character is consumed verbatim, a quote begins
    /// opening a fence, an escape character arms `ignoring`, anything else
    /// is discarded.
    fn search(&mut self, c: char)
        requires
            old(self).state is Searching,
            old(self).pending is None,
        ensures
            final(self).machine() == step_search(old(self).machine(), c),
            old(self).same_frame(*final(self)),
        decreases (if c == '"' { 1int } else { 0int }),
    {
        if self.ignoring {
            self.ignoring = false;
        } else if c == '"' {
            self.state = State::CountingStart { seen: 0 };
            self.count_start(c);
        } else if c == '\\' {
            self.ignoring = true;
        }
    }

    /// Counting the opening run: a quote lengthens it; the first non-quote
    /// fixes the fence length and is re-processed inside the literal.
    fn count_start(&mut self, c: char)
        requires
            old(self).state is CountingStart,
            old(self).can_count(),
            c != '"' ==> phase_inv(old(self).state.phase()),
            old(self).pending is None,
        ensures
            final(self).machine() == step_count_start(old(self).machine(), c),
            old(self).same_frame(*final(self)),
        decreases (if c == '"' { 0int } else { 1int }),
    {
        match self.state {
            State::CountingStart { seen } => {
                if c == '"' {
                    self.state = State::CountingStart { seen: seen + 1 };
                } else {
                    self.state = State::InsideString { fence: seen };
                    self.inside_string(c);
                }
            },
            _ => {},
        }
    }

    /// Inside a literal: an escaped character is appended verbatim, a quote
    /// starts a closing attempt, an escape character is appended and arms
    /// `ignoring`, anything else is appended.
    fn inside_string(&mut self, c: char)
        requires
            old(self).state is InsideString,
            phase_inv(old(self).state.phase()),
            old(self).pending is None,
        ensures
            final(self).machine() == step_inside(old(self).machine(), c),
            old(self).same_frame(*final(self)),
        decreases (if c == '"' { 1int } else { 0int }),
    {
        if self.ignoring {
            self.buffer.push(c);
            self.ignoring = false;
        } else if c == '"' {
            match self.state {
                State::InsideString { fence } => {
                    self.state = State::CountingEnd { fence, remaining: fence };
                    self.count_end(c);
                },
                _ => {},
            }
        } else if c == '\\' {
            self.buffer.push(c);
            self.ignoring = true;
        } else {
            self.buffer.push(c);
        }
    }

    /// Attempting to close: a quote brings the attempt closer to an exact
    /// match, and on the match the buffered content becomes the pending
    /// literal; a non-quote restores the quotes this attempt consumed to
    /// the buffer and is re-processed inside the literal.
    fn count_end(&mut self, c: char)
        requires
            old(self).state is CountingEnd,
            phase_inv(old(self).state.phase()),
            old(self).pending is None,
        ensures
            final(self).machine() == step_count_end(old(self).machine(), c),
            old(self).same_frame(*final(self)),
        decreases (if c == '"' { 0int } else { 1int }),
    {
        let ghost pre = *self;
        match self.state {
            State::CountingEnd { fence, remaining } => {
                if c == '"' {
                    if remaining == 1 {
                        let mut closed: Vec<char> = Vec::new();
                        core::mem::swap(&mut closed, &mut self.buffer);
                        self.pending = Some(closed);
                        self.state = State::Searching;
                    } else {
                        self.state = State::CountingEnd { fence, remaining: remaining - 1 };
                    }
                } else {
                    let mut k = remaining;
                    proof {
                        assert(pre.buffer@ + quotes(0) =~= pre.buffer@);
                    }
                    while k < fence
                        invariant
                            remaining <= k <= fence,
                            self.state == pre.state,
                            self.ignoring == pre.ignoring,
                            self.pending == pre.pending,
                            self.buffer@ == pre.buffer@ + quotes((k - remaining) as nat),
                            pre.same_frame(*self),
                        decreases fence - k,
                    {
                        self.buffer.push('"');
                        proof {
                            assert(pre.buffer@ + quotes((k + 1 - remaining) as nat) =~= (
                            pre.buffer@ + quotes((k - remaining) as nat)).push('"'));
                        }
                        k = k + 1;
                    }
                    self.state = State::InsideString { fence };
                    self.inside_string(c);
                }
            },
            _ => {},
        }
        proof {
            if c == '"' {
                assert(self.machine() =~= step_count_end(pre.machine(), c));
            }
        }
    }

    /// Advances the automaton until the next literal closes and returns its
    /// content; returns `None` once the source is exhausted with no further
    /// literal. A fence still open at the end of the source yields nothing.
    pub fn next(&mut self) -> (r: Option<String>)
        requires
            old(self).wf(),
        ensures
            final(self).wf(),
            final(self).source() == old(self).source(),
            match r {
                Some(s) => {
                    &&& old(self).yielded().len() < extract(old(self).source()).len()
                    &&& s@ == extract(old(self).source())[old(self).yielded().len() as int]
                    &&& final(self).yielded() == old(self).yielded().push(s@)
                },
                None => {
                    &&& final(self).yielded() == old(self).yielded()
                    &&& final(self).yielded() == extract(old(self).source())
                },
            },
    {
        let ghost pre = *self;
        while self.pending.is_none() && self.pos < self.chars.len()
            invariant
                self.in_sync(),
                self.chars == pre.chars,
                self.yielded == pre.yielded,
            decreases self.chars@.len() - self.pos,
        {
            let ghost p = self.pos as int;
            let c = self.chars[self.pos];
            proof {
                lemma_run_phase_inv(init(), self.chars@.take(p));
                lemma_run_seen_bound(init(), self.chars@.take(p), 0);
            }
            self.process_char(c);
            self.pos = self.pos + 1;
            proof {
                lemma_run_snoc(init(), pre.chars@.take(p), c);
                assert(pre.chars@.take(p + 1) =~= pre.chars@.take(p).push(c));
            }
        }
        let mut taken: Option<Vec<char>> = None;
        core::mem::swap(&mut taken, &mut self.pending);
        match taken {
            Some(v) => {
                proof {
                    let consumed = self.chars@.take(self.pos as int);
                    let rest = self.chars@.skip(self.pos as int);
                    assert(consumed + rest =~= self.chars@);
                    lemma_run_append(init(), consumed, rest);
                    lemma_run_extends(run(init(), consumed), rest);
                }
                let s = to_text(&v);
                self.yielded = Ghost(self.yielded@.push(v@));
                Some(s)
            },
            None => {
                proof {
                    assert(self.chars@.take(self.pos as int) =~= self.chars@);
                }
                None
            },
        }
    }

    /// Extracts every literal not yet handed out, in order of appearance,
    /// leaving the source exhausted.
    pub fn all_strings(&mut self) -> (r: Vec<String>)
        requires
            old(self).wf(),
        ensures
            final(self).wf(),
            final(self).source() == old(self).source(),
            final(self).yielded() == extract(old(self).source()),
            r@.map_values(|s: String| s@) == extract(old(self).source()).skip(
                old(self).yielded().len() as int,
            ),
    {
        let ghost pre = *self;
        let mut out: Vec<String> = Vec::new();
        let mut done = false;
        proof {
            let consumed = self.chars@.take(self.pos as int);
            let rest = self.chars@.skip(self.pos as int);
            assert(consumed + rest =~= self.chars@);
            lemma_run_append(init(), consumed, rest);
            lemma_run_extends(run(init(), consumed), rest);
            assert(pre.yielded() + out@.map_values(|s: String| s@) =~= pre.yielded());
        }
        while !done
            invariant
                self.wf(),
                self.source() == pre.source(),
                self.yielded() == pre.yielded() + out@.map_values(|s: String| s@),
                self.yielded().len() <= extract(pre.source()).len(),
                done ==> self.yielded() == extract(pre.source()),
            decreases extract(pre.source()).len() - self.yielded().len() + (
            if done {
                0int
            } else {
                1int
            }),
        {
            match self.next() {
                Some(s) => {
                    proof {
                        assert((out@.push(s)).map_values(|t: String| t@) =~= out@.map_values(
                            |t: String| t@,
                        ).push(s@));
                        assert(pre.yielded() + out@.map_values(|t: String| t@).push(s@) =~= (
                        pre.yielded() + out@.map_values(|t: String| t@)).push(s@));
                    }
                    out.push(s);
                },
                None => {
                    done = true;
                },
            }
        }
        proof {
            assert(out@.map_values(|s: String| s@) =~= extract(pre.source()).skip(
                pre.yielded().len() as int,
            ));
        }
        out
    }
}

/// Anything that can hand its characters to the fence extraction automaton.
pub trait Strings: Sized {
    /// The character stream the implementor stands for.
    spec fn stream(self) -> Seq<char>;

    /// Wraps the characters in a fresh automaton over that stream.
    fn words(self) -> (r: StringFinder)
        ensures
            r.wf(),
            r.source() == self.stream(),
            r.yielded() == Seq::<Seq<char>>::empty(),
    ;
}

impl Strings for Vec<char> {
    open spec fn stream(self) -> Seq<char> {
        self@
    }

    fn words(self) -> (r: StringFinder) {
        StringFinder::from(self)
    }
}

} // verus!
