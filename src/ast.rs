//! The command tree that the evaluator walks.

use vstd::prelude::*;

verus! {

/// How a redirection opens its file.
#[derive(Clone, Copy, Debug, PartialEq, Eq, Structural)]
pub enum RedirectMode {
    Read,
    Write,
    ReadAppend,
    WriteAppend,
    ReadDup,
    WriteDup,
    ReadWrite,
}

/// A file redirection attached to a simple command.
pub struct Redirect {
    /// The descriptor number written before the operator, if any (1 when absent). It is
    /// recorded but not acted upon: the mode alone decides whether input or output moves.
    pub n: Option<usize>,
    pub file: String,
    pub mode: RedirectMode,
}

/// A `NAME=value` prefix of a simple command.
pub struct Assign {
    pub var: String,
    pub val: String,
}

/// Index of a node in the evaluator's arena of commands.
pub type CmdId = usize;

/// One `if` / `elif` arm.
pub struct Condition {
    pub cond: CmdId,
    pub body: CmdId,
}

/// One arm of a `case` statement.
pub struct CaseArm {
    pub pattern: Vec<String>,
    pub body: CmdId,
}

/// A node of a parsed command line; sub-commands are arena indices.
pub enum Command {
    Simple { assigns: Vec<Assign>, redirects: Vec<Redirect>, args: Vec<String> },
    Pipeline(CmdId, CmdId),
    And(CmdId, CmdId),
    Or(CmdId, CmdId),
    Not(CmdId),
    AsyncList(CmdId, Option<CmdId>),
    SeqList(CmdId, Option<CmdId>),
    Subshell(CmdId),
    If { conds: Vec<Condition>, else_part: Option<CmdId> },
    While { cond: CmdId, body: CmdId },
    Until { cond: CmdId, body: CmdId },
    For { name: String, wordlist: Vec<String>, body: CmdId },
    Case { word: String, arms: Vec<CaseArm> },
    Fn { fname: String, body: CmdId },
    Empty,
}

pub open spec fn opt_below(o: Option<CmdId>, n: nat) -> bool {
    match o {
        Some(c) => c < n,
        None => true,
    }
}

impl Command {
    /// Every sub-command index of this node is below `n`.
    pub open spec fn children_below(&self, n: nat) -> bool {
        match *self {
            Command::Simple { .. } => true,
            Command::Pipeline(a, b) => a < n && b < n,
            Command::And(a, b) => a < n && b < n,
            Command::Or(a, b) => a < n && b < n,
            Command::Not(a) => a < n,
            Command::AsyncList(a, b) => a < n && opt_below(b, n),
            Command::SeqList(a, b) => a < n && opt_below(b, n),
            Command::Subshell(a) => a < n,
            Command::If { conds, else_part } => opt_below(else_part, n) && forall|i: int|
                0 <= i < conds@.len() ==> #[trigger] conds@[i].cond < n && conds@[i].body < n,
            Command::While { cond, body } => cond < n && body < n,
            Command::Until { cond, body } => cond < n && body < n,
            Command::For { body, .. } => body < n,
            Command::Case { arms, .. } => forall|i: int|
                0 <= i < arms@.len() ==> #[trigger] arms@[i].body < n,
            Command::Fn { body, .. } => body < n,
            Command::Empty => true,
        }
    }
}

/// Copies a vector of strings element by element.
pub fn copy_strings(v: &Vec<String>) -> (r: Vec<String>)
    ensures
        r@ == v@,
{
    let mut r: Vec<String> = Vec::new();
    let mut i: usize = 0;
    while i < v.len()
        invariant
            i <= v.len(),
            r@ == v@.subrange(0, i as int),
        decreases v.len() - i,
    {
        r.push(v[i].clone());
        i = i + 1;
        assert(r@ =~= v@.subrange(0, i as int));
    }
    assert(r@ =~= v@);
    r
}

} // verus!
