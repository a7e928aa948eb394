//! A small POSIX-style shell: its command tree, its runtime state, word
//! expansion, the evaluator that turns a tree into process launches, and the
//! rule-based tab completer.

pub mod ast;
pub mod table;
pub mod runtime;
pub mod expand;
pub mod words;
pub mod eval;
pub mod completion;
pub mod shell;
pub mod laws;

use vstd::prelude::*;

verus! {

/// Default error formatter of the minimal shell: it prints nothing.
pub fn simple_error() {
}

} // verus!
