//! Extraction of fenced string literals from a character stream.
//!
//! A literal is opened by a run of quote characters (a fence); its length is
//! fixed by the first non-quote character that follows. Content then
//! accumulates, tolerating interior quote runs shorter than the fence and
//! backslash escapes, until a run of exactly the fence's length closes the
//! literal. The automaton in [`finder`] is proved to follow the abstract
//! machine in [`machine`], and [`laws`] states the stream-level guarantees.

pub mod finder;
pub mod laws;
pub mod machine;
