//! The abstract fence-counting automaton.
//!
//! Everything here is specification: a mathematical state machine over
//! `Seq<char>` that says, character by character, what the executable
//! automaton in [`crate::finder`] must do.

use vstd::prelude::*;

verus! {

/// The phase of the automaton, with each counter carried only in the phase
/// where it is meaningful.
pub ghost enum Phase {
    /// Not inside any literal.
    Searching,
    /// Counting the run of quote characters that opens a fence; `seen`
    /// quotes have been consumed so far.
    CountingStart { seen: nat },
    /// Accumulating content behind a fence of `fence` quote characters.
    InsideString { fence: nat },
    /// Attempting to close a fence of `fence` quote characters; `remaining`
    /// more quotes are needed for an exact match.
    CountingEnd { fence: nat, remaining: nat },
}

/// The complete abstract state: the phase, the pending escape flag, the
/// content accumulated for the currently open literal, and every literal
/// closed so far, in order of appearance.
#[verifier::ext_equal]
pub ghost struct Machine {
    pub phase: Phase,
    pub ignoring: bool,
    pub buffer: Seq<char>,
    pub found: Seq<Seq<char>>,
}

/// The automaton as first created: searching, no escape pending, nothing
/// buffered, nothing found.
pub open spec fn init() -> Machine {
    Machine {
        phase: Phase::Searching,
        ignoring: false,
        buffer: Seq::empty(),
        found: Seq::empty(),
    }
}

/// A run of `n` quote characters.
pub open spec fn quotes(n: nat) -> Seq<char> {
    Seq::new(n, |i: int| '"')
}

/// One step while searching: an escaped character is consumed verbatim, a
/// quote begins opening a fence (and is re-processed as part of the opening
/// run), an escape character arms `ignoring`, anything else is discarded.
pub open spec fn step_search(m: Machine, c: char) -> Machine
    decreases (if c == '"' { 1int } else { 0int }),
{
    if m.ignoring {
        Machine { ignoring: false, ..m }
    } else if c == '"' {
        step_count_start(Machine { phase: Phase::CountingStart { seen: 0 }, ..m }, c)
    } else if c == '\\' {
        Machine { ignoring: true, ..m }
    } else {
        m
    }
}

/// One step while counting the opening run: a quote lengthens the run; the
/// first non-quote fixes the fence length and is re-processed inside the
/// literal.
pub open spec fn step_count_start(m: Machine, c: char) -> Machine
    recommends
        m.phase is CountingStart,
    decreases (if c == '"' { 0int } else { 1int }),
{
    match m.phase {
        Phase::CountingStart { seen } => {
            if c == '"' {
                Machine { phase: Phase::CountingStart { seen: seen + 1 }, ..m }
            } else {
                step_inside(Machine { phase: Phase::InsideString { fence: seen }, ..m }, c)
            }
        },
        _ => m,
    }
}

/// One step while inside a literal: an escaped character is appended
/// verbatim, a quote starts a closing attempt (and is re-processed there),
/// an escape character is appended and arms `ignoring`, anything else is
/// appended.
pub open spec fn step_inside(m: Machine, c: char) -> Machine
    recommends
        m.phase is InsideString,
    decreases (if c == '"' { 1int } else { 0int }),
{
    match m.phase {
        Phase::InsideString { fence } => {
            if m.ignoring {
                Machine { ignoring: false, buffer: m.buffer.push(c), ..m }
            } else if c == '"' {
                step_count_end(
                    Machine { phase: Phase::CountingEnd { fence, remaining: fence }, ..m },
                    c,
                )
            } else if c == '\\' {
                Machine { ignoring: true, buffer: m.buffer.push(c), ..m }
            } else {
                Machine { buffer: m.buffer.push(c), ..m }
            }
        },
        _ => m,
    }
}

/// One step while attempting to close: a quote brings the attempt closer to
/// an exact match, and on the match the buffered content becomes the next
/// found literal; a non-quote means the run was too short, so the quotes
/// consumed by the attempt are restored to the buffer literally and the
/// character is re-processed inside the literal.
pub open spec fn step_count_end(m: Machine, c: char) -> Machine
    recommends
        m.phase is CountingEnd,
    decreases (if c == '"' { 0int } else { 1int }),
{
    match m.phase {
        Phase::CountingEnd { fence, remaining } => {
            if c == '"' {
                if remaining <= 1 {
                    Machine {
                        phase: Phase::Searching,
                        buffer: Seq::empty(),
                        found: m.found.push(m.buffer),
                        ..m
                    }
                } else {
                    Machine {
                        phase: Phase::CountingEnd { fence, remaining: (remaining - 1) as nat },
                        ..m
                    }
                }
            } else {
                let recovered: nat = if remaining <= fence {
                    (fence - remaining) as nat
                } else {
                    0
                };
                step_inside(
                    Machine {
                        phase: Phase::InsideString { fence },
                        buffer: m.buffer + quotes(recovered),
                        ..m
                    },
                    c,
                )
            }
        },
        _ => m,
    }
}

/// One step of the automaton on one character, dispatched on the phase.
pub open spec fn step(m: Machine, c: char) -> Machine
    decreases 2int,
{
    match m.phase {
        Phase::Searching => step_search(m, c),
        Phase::CountingStart { .. } => step_count_start(m, c),
        Phase::InsideString { .. } => step_inside(m, c),
        Phase::CountingEnd { .. } => step_count_end(m, c),
    }
}

/// The automaton run over a whole character sequence, left to right.
pub open spec fn run(m: Machine, s: Seq<char>) -> Machine
    decreases s.len(),
{
    if s.len() == 0 {
        m
    } else {
        run(step(m, s[0]), s.drop_first())
    }
}

/// Everything the automaton extracts from `s`: the content of each fenced
/// literal that both opens and closes within `s`, in order of appearance.
/// Content still buffered for a literal that never closes is discarded.
pub open spec fn extract(s: Seq<char>) -> Seq<Seq<char>> {
    run(init(), s).found
}

/// The counters carried by a phase are in range: an opening run has at
/// least one quote, a fence has at least one quote, and a closing attempt
/// never needs more quotes than the fence has.
pub open spec fn phase_inv(p: Phase) -> bool {
    match p {
        Phase::Searching => true,
        Phase::CountingStart { seen } => seen >= 1,
        Phase::InsideString { fence } => fence >= 1,
        Phase::CountingEnd { fence, remaining } => 1 <= remaining && remaining <= fence,
    }
}

/// A bound on the opening counter: `seen` never exceeds `n`.
pub open spec fn seen_bound(p: Phase, n: int) -> bool {
    match p {
        Phase::CountingStart { seen } => seen <= n,
        _ => true,
    }
}

/// `f2` extends `f1`: every literal already found stays, at its position.
pub open spec fn extends(f1: Seq<Seq<char>>, f2: Seq<Seq<char>>) -> bool {
    f1.len() <= f2.len() && (forall|i: int| 0 <= i < f1.len() ==> f2[i] == f1[i])
}

/// One step preserves the phase invariant.
pub proof fn lemma_step_phase_inv(m: Machine, c: char)
    requires
        phase_inv(m.phase),
    ensures
        phase_inv(step(m, c).phase),
{
}

/// A whole run preserves the phase invariant.
pub proof fn lemma_run_phase_inv(m: Machine, s: Seq<char>)
    requires
        phase_inv(m.phase),
    ensures
        phase_inv(run(m, s).phase),
    decreases s.len(),
{
    if s.len() > 0 {
        lemma_step_phase_inv(m, s[0]);
        lemma_run_phase_inv(step(m, s[0]), s.drop_first());
    }
}

/// One step raises the opening counter by at most one.
pub proof fn lemma_step_seen_bound(m: Machine, c: char, n: int)
    requires
        seen_bound(m.phase, n),
        n >= 0,
    ensures
        seen_bound(step(m, c).phase, n + 1),
{
}

/// After consuming `s`, the opening counter is at most `n + s.len()`.
pub proof fn lemma_run_seen_bound(m: Machine, s: Seq<char>, n: int)
    requires
        seen_bound(m.phase, n),
        n >= 0,
    ensures
        seen_bound(run(m, s).phase, n + s.len()),
    decreases s.len(),
{
    if s.len() > 0 {
        lemma_step_seen_bound(m, s[0], n);
        lemma_run_seen_bound(step(m, s[0]), s.drop_first(), n + 1);
    }
}

/// One step only ever appends to the found literals.
pub proof fn lemma_step_extends(m: Machine, c: char)
    ensures
        extends(m.found, step(m, c).found),
{
}

/// A whole run only ever appends to the found literals.
pub proof fn lemma_run_extends(m: Machine, s: Seq<char>)
    ensures
        extends(m.found, run(m, s).found),
    decreases s.len(),
{
    if s.len() > 0 {
        lemma_step_extends(m, s[0]);
        lemma_run_extends(step(m, s[0]), s.drop_first());
    }
}

/// Running over a concatenation is running over the parts in turn.
pub proof fn lemma_run_append(m: Machine, s: Seq<char>, t: Seq<char>)
    ensures
        run(m, s + t) == run(run(m, s), t),
    decreases s.len(),
{
    if s.len() == 0 {
        assert(s + t =~= t);
    } else {
        assert((s + t)[0] == s[0]);
        assert((s + t).drop_first() =~= s.drop_first() + t);
        lemma_run_append(step(m, s[0]), s.drop_first(), t);
    }
}

/// Extending the input by one character takes one more step.
pub proof fn lemma_run_snoc(m: Machine, s: Seq<char>, c: char)
    ensures
        run(m, s.push(c)) == step(run(m, s), c),
{
    assert(s.push(c) =~= s + seq![c]);
    lemma_run_append(m, s, seq![c]);
    assert(seq![c].drop_first() =~= Seq::<char>::empty());
    assert(run(run(m, s), seq![c]) == run(step(run(m, s), c), seq![c].drop_first()));
    assert(run(step(run(m, s), c), Seq::<char>::empty()) == step(run(m, s), c));
}

} // verus!
