//! The command evaluator, as a machine that app code drives.
//!
//! The evaluator never touches the operating system. Each call of
//! [`Evaluator::step`] takes the outcome of the previous action (an
//! [`Event`]) and returns the next [`Action`]: launch a child, wait for one,
//! or report that the line is finished. Children are named by handles,
//! numbered from zero in each line in the order they were launched.

use vstd::prelude::*;
use crate::ast::{CmdId, Command, Redirect, RedirectMode};
use crate::expand::{envsubst, expansion};
use crate::runtime::Runtime;
use crate::table::{bind, lookup};
use crate::words::{pieces, split_on, views};

verus! {

/// Errors that abandon the current line.
#[derive(Clone, Copy, Debug, PartialEq, Eq, Structural)]
pub enum EvalError {
    ParseError,
    EmptyCommand,
    RedirectOpenFailure,
    NotImplemented,
    SpawnFailed,
    ReservedFunctionName,
    DecodeError,
    HookError,
    /// `cd` to something that is not a directory.
    NoSuchDirectory,
}

/// Where a child's standard input comes from.
pub enum Input {
    Inherit,
    /// The captured standard output of an earlier child of this line.
    PipeFrom(usize),
    File { path: String, mode: RedirectMode },
}

/// Where a child's standard output goes.
pub enum Output {
    /// Captured by the shell (and printed, or piped on).
    Piped,
    File { path: String, mode: RedirectMode },
}

pub struct Streams {
    pub input: Input,
    pub output: Output,
}

/// What the app code is asked to start.
pub enum Launch {
    External {
        program: String,
        args: Vec<String>,
        /// Added to the inherited environment of the child.
        envs: Vec<(String, String)>,
        cwd: String,
        streams: Streams,
        /// Handle of the child whose process group the new child joins; `None`: its own group.
        pgid: Option<usize>,
    },
    /// A builtin registered by the app, run in process.
    Builtin { name: String, args: Vec<String> },
    /// A child that does nothing and exits with `status`.
    Placeholder { status: i32 },
}

pub enum Action {
    /// Start `launch` as child `handle`; answer with `Started` or `Failed`.
    Spawn { handle: usize, launch: Launch },
    /// Wait for child `handle`, print its output; answer with `Exited` or `Failed`.
    Wait { handle: usize },
    /// Nothing to do outside; answer with `Proceed`.
    Continue,
    /// The `cd` builtin: answer with `Started` when `path` names a directory, else with
    /// `Failed(NoSuchDirectory)`.
    ChangeDir { path: String },
    /// The `exit` builtin: end the shell with status zero.
    Exit,
    /// The line is done; its terminal child exited with `status`.
    Finished { status: i32 },
    /// The line was abandoned.
    Failed { error: EvalError },
    /// No line is in progress.
    Idle,
}

pub enum Event {
    Proceed,
    Started,
    Exited(i32),
    Failed(EvalError),
}

/// What the machine is doing between two steps.
pub enum Control {
    Idle,
    Eval { cmd: CmdId, input: Input, output: Output, pgid: Option<usize> },
    /// The command under evaluation has produced its terminal child, this handle.
    Return(usize),
    Spawning(usize),
    Waiting(usize),
    /// Waiting to learn whether the target of `cd` is a directory.
    ChangingDir(String),
}

/// What remains to be done once the innermost command has produced its child.
pub enum Frame {
    Top,
    TopWait,
    PipeRight { right: CmdId, output: Output },
    /// `on_success`: run `right` when the left side exits zero (`&&`); else when it does not (`||`).
    Guard { right: CmdId, on_success: bool },
    GuardWait { right: CmdId, on_success: bool },
    AsyncRight { right: CmdId },
    SeqWait { right: CmdId },
    SeqThen { right: CmdId },
    SubshellEnd,
    IfCond { node: CmdId, arm: usize },
    IfWait { node: CmdId, arm: usize },
    LoopCond { cond: CmdId, body: CmdId, until: bool },
    LoopCondWait { cond: CmdId, body: CmdId, until: bool },
    LoopBody { cond: CmdId, body: CmdId, until: bool },
    LoopBodyWait { cond: CmdId, body: CmdId, until: bool },
    ForBody { name: String, words: Vec<String>, next: usize, body: CmdId },
    ForWait { name: String, words: Vec<String>, next: usize, body: CmdId },
    CaseBody { node: CmdId, word: String, arm: usize },
    CaseWait { node: CmdId, word: String, arm: usize },
}

pub open spec fn is_dup(m: RedirectMode) -> bool {
    m == RedirectMode::ReadDup || m == RedirectMode::WriteDup
}

pub open spec fn reads(m: RedirectMode) -> bool {
    m == RedirectMode::Read || m == RedirectMode::ReadAppend || m == RedirectMode::ReadWrite
}

pub open spec fn writes(m: RedirectMode) -> bool {
    m == RedirectMode::Write || m == RedirectMode::WriteAppend || m == RedirectMode::ReadWrite
}

pub open spec fn has_dup(rs: Seq<Redirect>) -> bool {
    exists|i: int| 0 <= i < rs.len() && is_dup(#[trigger] rs[i].mode)
}

/// The streams after applying `rs` in order to `base`: the last redirect of each side wins.
pub open spec fn redirected(rs: Seq<Redirect>, base: Streams) -> Streams
    decreases rs.len(),
{
    if rs.len() == 0 {
        base
    } else {
        let st = redirected(rs.drop_last(), base);
        let r = rs.last();
        Streams {
            input: if reads(r.mode) {
                Input::File { path: r.file, mode: r.mode }
            } else {
                st.input
            },
            output: if writes(r.mode) {
                Output::File { path: r.file, mode: r.mode }
            } else {
                st.output
            },
        }
    }
}

/// Applies the redirections of a simple command to the streams it was given.
pub fn plan_redirects(redirects: &Vec<Redirect>, base: Streams) -> (r: Result<Streams, EvalError>)
    ensures
        has_dup(redirects@) <==> r is Err,
        r is Err ==> r == Err::<Streams, EvalError>(EvalError::NotImplemented),
        r is Ok ==> r == Ok::<Streams, EvalError>(redirected(redirects@, base)),
{
    let ghost b = base;
    let mut st = base;
    let mut i: usize = 0;
    while i < redirects.len()
        invariant
            i <= redirects.len(),
            st == redirected(redirects@.subrange(0, i as int), b),
            forall|j: int| 0 <= j < i ==> !is_dup(#[trigger] redirects@[j].mode),
        decreases redirects.len() - i,
    {
        let r = &redirects[i];
        assert(redirects@.subrange(0, i + 1).drop_last() =~= redirects@.subrange(0, i as int));
        match r.mode {
            RedirectMode::ReadDup | RedirectMode::WriteDup => {
                return Err(EvalError::NotImplemented);
            },
            RedirectMode::Read | RedirectMode::ReadAppend => {
                st = Streams { input: Input::File { path: r.file.clone(), mode: r.mode }, output: st.output };
            },
            RedirectMode::Write | RedirectMode::WriteAppend => {
                st = Streams { input: st.input, output: Output::File { path: r.file.clone(), mode: r.mode } };
            },
            RedirectMode::ReadWrite => {
                st = Streams {
                    input: Input::File { path: r.file.clone(), mode: r.mode },
                    output: Output::File { path: r.file.clone(), mode: r.mode },
                };
            },
        }
        i = i + 1;
    }
    assert(redirects@.subrange(0, i as int) =~= redirects@);
    Ok(st)
}

pub open spec fn reserved_words() -> Seq<Seq<char>> {
    seq![
        "!"@, "{"@, "}"@, "case"@, "do"@, "done"@, "elif"@, "else"@, "esac"@, "fi"@, "for"@,
        "if"@, "in"@, "then"@, "until"@, "while"@,
    ]
}

/// Relies on shrs_lang::RESERVED_WORDS, the parser's list of reserved words.
#[verifier::external_body]
fn is_reserved(name: &str) -> (r: bool)
    ensures
        r == reserved_words().contains(name@),
{
    shrs_lang::RESERVED_WORDS.contains(&name)
}

pub open spec fn opt_handle_ok(p: Option<usize>, n: nat) -> bool {
    match p {
        Some(h) => h < n,
        None => true,
    }
}

pub open spec fn ctrl_ok(c: Control, len: nat, n: nat) -> bool {
    match c {
        Control::Idle => true,
        Control::Eval { cmd, pgid, .. } => cmd < len && opt_handle_ok(pgid, n),
        Control::Return(h) => h < n,
        Control::Spawning(h) => h < n,
        Control::Waiting(h) => h < n,
        Control::ChangingDir(_) => true,
    }
}

pub open spec fn frame_ok(f: Frame, arena: Seq<Command>) -> bool {
    let len = arena.len();
    match f {
        Frame::Top | Frame::TopWait | Frame::SubshellEnd => true,
        Frame::PipeRight { right, .. } => right < len,
        Frame::Guard { right, .. } => right < len,
        Frame::GuardWait { right, .. } => right < len,
        Frame::AsyncRight { right } => right < len,
        Frame::SeqWait { right } => right < len,
        Frame::SeqThen { right } => right < len,
        Frame::IfCond { node, arm } | Frame::IfWait { node, arm } => node < len && (match arena[
            node as int
        ] {
            Command::If { conds, .. } => arm < conds@.len(),
            _ => false,
        }),
        Frame::LoopCond { cond, body, .. } => cond < len && body < len,
        Frame::LoopCondWait { cond, body, .. } => cond < len && body < len,
        Frame::LoopBody { cond, body, .. } => cond < len && body < len,
        Frame::LoopBodyWait { cond, body, .. } => cond < len && body < len,
        Frame::ForBody { words, next, body, .. } => body < len && next <= words@.len(),
        Frame::ForWait { words, next, body, .. } => body < len && next <= words@.len(),
        Frame::CaseBody { node, arm, .. } | Frame::CaseWait { node, arm, .. } => node < len && (
        match arena[node as int] {
            Command::Case { arms, .. } => arm < arms@.len(),
            _ => false,
        }),
    }
}

/// Number of subshells entered and not yet left.
pub open spec fn subshells(fs: Seq<Frame>) -> nat
    decreases fs.len(),
{
    if fs.len() == 0 {
        0
    } else {
        subshells(fs.drop_last()) + if fs.last() is SubshellEnd {
            1nat
        } else {
            0nat
        }
    }
}

/// Whether a word names a builtin.
pub open spec fn is_builtin(builtins: Seq<String>, w: Seq<char>) -> bool {
    exists|i: int| 0 <= i < builtins.len() && (#[trigger] builtins[i])@ == w
}

/// The directory `cd` moves to: its first argument, or `/` without one.
pub open spec fn cd_target(args: Seq<Seq<char>>) -> Seq<char> {
    if args.len() > 0 {
        args[0]
    } else {
        "/"@
    }
}

pub open spec fn assigned(assigns: Seq<crate::ast::Assign>) -> Seq<(String, String)> {
    assigns.map_values(|x: crate::ast::Assign| (x.var, x.val))
}

/// What a simple command whose words are `words` does, once its redirects were accepted.
pub open spec fn simple_outcome(
    before: Evaluator,
    after: Evaluator,
    words: Seq<Seq<char>>,
    streams: Streams,
    assigns: Seq<crate::ast::Assign>,
    pgid: Option<usize>,
    a: Action,
) -> bool {
    let spawned = before.next_handle < usize::MAX;
    if is_builtin(before.builtins@, words[0]) {
        &&& !(a is Spawn && a->Spawn_launch is External)
        &&& words[0] == "cd"@ ==> (a matches Action::ChangeDir { path } && path@ == cd_target(
            words.drop_first(),
        ) && after.ctrl == Control::ChangingDir(path) && after.rt == before.rt
            && after.frames == before.frames && after.saved == before.saved)
        &&& words[0] == "exit"@ ==> a is Exit
        &&& words[0] != "cd"@ && words[0] != "exit"@ && spawned ==> (a matches Action::Spawn {
            handle,
            launch: Launch::Builtin { name, args },
        } && handle == before.next_handle && name@ == words[0] && views(args@) == words.drop_first())
    } else if lookup(before.rt.functions@, words[0]) is Some {
        &&& a is Continue
        &&& after.ctrl == (Control::Eval {
            cmd: lookup(before.rt.functions@, words[0])->0,
            input: Input::Inherit,
            output: Output::Piped,
            pgid: None,
        })
        &&& after.rt == before.rt
    } else {
        &&& spawned ==> after.rt == before.rt
        &&& spawned ==> (a matches Action::Spawn {
            handle,
            launch: Launch::External { program, args, envs, cwd, streams: st, pgid: g },
        } && handle == before.next_handle && program@ == words[0] && views(args@)
            == words.drop_first() && envs@ == assigned(assigns) && cwd == before.rt.working_dir
            && st == streams && g == pgid)
    }
}

/// What evaluating the simple command with these parts does.
pub open spec fn simple_step(
    b: Evaluator,
    f: Evaluator,
    args: Seq<String>,
    rs: Seq<Redirect>,
    assigns: Seq<crate::ast::Assign>,
    input: Input,
    output: Output,
    pgid: Option<usize>,
    a: Action,
) -> bool {
    &&& a is Failed ==> abandoned(b, f)
    &&& args.len() == 0 ==> a == (Action::Failed { error: EvalError::EmptyCommand })
    &&& args.len() > 0 && has_dup(rs) ==> a == (Action::Failed { error: EvalError::NotImplemented })
    &&& args.len() > 0 && !has_dup(rs) ==> simple_outcome(
        b,
        f,
        expanded(args, b.rt),
        redirected(rs, Streams { input, output }),
        assigns,
        pgid,
        a,
    )
}

/// What evaluating node `cmd` with these streams does, kind by kind.
pub open spec fn node_step(
    b: Evaluator,
    f: Evaluator,
    cmd: CmdId,
    input: Input,
    output: Output,
    pgid: Option<usize>,
    a: Action,
) -> bool {
    match b.arena@[cmd as int] {
        Command::Simple { assigns, redirects, args } => simple_step(
            b,
            f,
            args@,
            redirects@,
            assigns@,
            input,
            output,
            pgid,
            a,
        ),
        Command::Pipeline(l, r) => goes(f, l, input, Output::Piped, pgid, a) && f.frames@ == b.frames@.push(
            Frame::PipeRight { right: r, output },
        ) && f.rt == b.rt,
        Command::And(l, r) => goes(f, l, Input::Inherit, Output::Piped, None, a) && f.frames@
            == b.frames@.push(Frame::Guard { right: r, on_success: true }) && f.rt == b.rt,
        Command::Or(l, r) => goes(f, l, Input::Inherit, Output::Piped, None, a) && f.frames@
            == b.frames@.push(Frame::Guard { right: r, on_success: false }) && f.rt == b.rt,
        Command::Not(i) => goes(f, i, input, output, None, a) && f.frames == b.frames && f.rt == b.rt,
        Command::AsyncList(l, r) => goes(f, l, Input::Inherit, Output::Piped, None, a) && f.rt == b.rt
            && f.frames@ == match r {
            Some(r) => b.frames@.push(Frame::AsyncRight { right: r }),
            None => b.frames@,
        },
        Command::SeqList(l, r) => goes(f, l, Input::Inherit, Output::Piped, None, a) && f.rt == b.rt
            && f.frames@ == match r {
            Some(r) => b.frames@.push(Frame::SeqWait { right: r }),
            None => b.frames@,
        },
        Command::Subshell(i) => goes(f, i, Input::Inherit, Output::Piped, None, a) && f.frames@
            == b.frames@.push(Frame::SubshellEnd) && f.saved@ == b.saved@.push(b.rt) && f.rt.same(&b.rt),
        Command::If { conds, else_part } => if conds@.len() > 0 {
            goes(f, conds@[0].cond, Input::Inherit, Output::Piped, None, a) && f.frames@ == b.frames@.push(
                Frame::IfCond { node: cmd, arm: 0 },
            ) && f.rt == b.rt
        } else {
            match else_part {
                Some(e) => goes(f, e, Input::Inherit, Output::Piped, None, a) && f.frames == b.frames
                    && f.rt == b.rt,
                None => placeholder_spawn(b, b.frames@, f, 0, a) && (!(a is Failed) ==> f.rt == b.rt),
            }
        },
        Command::While { cond, body } => goes(f, cond, Input::Inherit, Output::Piped, None, a)
            && f.frames@ == b.frames@.push(Frame::LoopCond { cond, body, until: false }) && f.rt == b.rt,
        Command::Until { cond, body } => goes(f, cond, Input::Inherit, Output::Piped, None, a)
            && f.frames@ == b.frames@.push(Frame::LoopCond { cond, body, until: true }) && f.rt == b.rt,
        Command::For { name, wordlist, body } => {
            let ws = for_words(wordlist@);
            if ws.len() == 0 {
                placeholder_spawn(b, b.frames@, f, 0, a) && (!(a is Failed) ==> f.rt == b.rt)
            } else {
                &&& goes(f, body, Input::Inherit, Output::Piped, None, a)
                &&& f.frames@.len() > 0 && f.frames@.drop_last() == b.frames@
                &&& f.frames@.last() matches Frame::ForBody { name: n, words, next, body: bd } && n == name
                    && views(words@) == ws && next == 1 && bd == body
                &&& rt_with_var(b.rt, f.rt, name@, ws[0])
            }
        },
        Command::Case { word, arms } => {
            let w = expansion(word@, b.rt);
            if exists|i: int| #[trigger] case_first(arms@, w, 0, i) {
                forall|i: int|
                    #[trigger] case_first(arms@, w, 0, i) ==> {
                        &&& goes(f, arms@[i].body, Input::Inherit, Output::Piped, None, a)
                        &&& f.frames@.len() > 0 && f.frames@.drop_last() == b.frames@
                        &&& f.frames@.last() matches Frame::CaseBody { node, word: fw, arm } && node == cmd
                            && fw@ == w && arm == i
                        &&& f.rt == b.rt
                    }
            } else {
                placeholder_spawn(b, b.frames@, f, 0, a) && (!(a is Failed) ==> f.rt == b.rt)
            }
        },
        Command::Fn { fname, body } => if reserved_words().contains(fname@) {
            a == (Action::Failed { error: EvalError::ReservedFunctionName }) && abandoned(b, f)
        } else {
            placeholder_spawn(b, b.frames@, f, 0, a) && (!(a is Failed) ==> rt_with_fn(
                b.rt,
                f.rt,
                fname@,
                body,
            ))
        },
        Command::Empty => placeholder_spawn(b, b.frames@, f, 0, a) && (!(a is Failed) ==> f.rt == b.rt),
    }
}

/// What going on after the evaluated command produced child `h` does, by the frame on top.
pub open spec fn resume_step(b: Evaluator, f: Evaluator, h: usize, a: Action) -> bool {
    if b.frames@.len() == 0 {
        a is Idle
    } else {
        let rest = b.frames@.drop_last();
        &&& f.saved == b.saved || b.frames@.last() is SubshellEnd
        &&& f.rt == b.rt || b.frames@.last() is SubshellEnd
        &&& match b.frames@.last() {
            Frame::Top => waits(f, h, a) && f.frames@ == rest.push(Frame::TopWait),
            Frame::PipeRight { right, output } => goes(
                f,
                right,
                Input::PipeFrom(h),
                output,
                Some(b.groups@[h as int]),
                a,
            ) && f.frames@ == rest,
            Frame::Guard { right, on_success } => waits(f, h, a) && f.frames@ == rest.push(
                Frame::GuardWait { right, on_success },
            ),
            Frame::AsyncRight { right } => goes(f, right, Input::Inherit, Output::Piped, None, a)
                && f.frames@ == rest,
            Frame::SeqWait { right } => waits(f, h, a) && f.frames@ == rest.push(Frame::SeqThen { right }),
            Frame::SubshellEnd => a is Continue && f.rt == b.saved@.last() && f.saved@
                == b.saved@.drop_last() && f.ctrl == Control::Return(h) && f.frames@ == rest,
            Frame::IfCond { node, arm } => waits(f, h, a) && f.frames@ == rest.push(
                Frame::IfWait { node, arm },
            ),
            Frame::LoopCond { cond, body, until } => waits(f, h, a) && f.frames@ == rest.push(
                Frame::LoopCondWait { cond, body, until },
            ),
            Frame::LoopBody { cond, body, until } => waits(f, h, a) && f.frames@ == rest.push(
                Frame::LoopBodyWait { cond, body, until },
            ),
            Frame::ForBody { name, words, next, body } => waits(f, h, a) && f.frames@ == rest.push(
                Frame::ForWait { name, words, next, body },
            ),
            Frame::CaseBody { node, word, arm } => waits(f, h, a) && f.frames@ == rest.push(
                Frame::CaseWait { node, word, arm },
            ),
            _ => waits(f, h, a) && f.frames@ == b.frames@,
        }
    }
}

/// What going on after the awaited child exited with `code` does, by the frame on top.
pub open spec fn exit_step(b: Evaluator, f: Evaluator, code: i32, a: Action) -> bool {
    let r = with_status(b.rt, code);
    let bs = Evaluator { rt: r, ..b };
    if b.frames@.len() == 0 {
        a is Idle && f.rt == r
    } else {
        let rest = b.frames@.drop_last();
        &&& a is Failed ==> abandoned(bs, f)
        &&& match b.frames@.last() {
            Frame::TopWait => a == (Action::Finished { status: code }) && f.ctrl is Idle && f.frames@
                == rest && f.rt == r,
            Frame::GuardWait { right, on_success } => if (code == 0) == on_success {
                goes(f, right, Input::Inherit, Output::Piped, None, a) && f.frames@ == rest && f.rt == r
            } else {
                placeholder_spawn(bs, rest, f, code, a) && (!(a is Failed) ==> f.rt == r)
            },
            Frame::SeqThen { right } => goes(f, right, Input::Inherit, Output::Piped, None, a)
                && f.frames@ == rest && f.rt == r,
            Frame::IfWait { node, arm } => (!(a is Failed) ==> f.rt == r) && match b.arena@[node as int] {
                Command::If { conds, else_part } => if code == 0 {
                    goes(f, conds@[arm as int].body, Input::Inherit, Output::Piped, None, a) && f.frames@
                        == rest
                } else if arm + 1 < conds@.len() {
                    goes(f, conds@[arm + 1].cond, Input::Inherit, Output::Piped, None, a) && f.frames@
                        == rest.push(Frame::IfCond { node, arm: (arm + 1) as usize })
                } else {
                    match else_part {
                        Some(e) => goes(f, e, Input::Inherit, Output::Piped, None, a) && f.frames@ == rest,
                        None => placeholder_spawn(bs, rest, f, 0, a),
                    }
                },
                _ => true,
            },
            Frame::LoopCondWait { cond, body, until } => (!(a is Failed) ==> f.rt == r) && if (code
                == 0) != until {
                goes(f, body, Input::Inherit, Output::Piped, None, a) && f.frames@ == rest.push(
                    Frame::LoopBody { cond, body, until },
                )
            } else {
                placeholder_spawn(bs, rest, f, 0, a)
            },
            Frame::LoopBodyWait { cond, body, until } => goes(f, cond, Input::Inherit, Output::Piped, None, a)
                && f.frames@ == rest.push(Frame::LoopCond { cond, body, until }) && f.rt == r,
            Frame::ForWait { name, words, next, body } => if next < words@.len() {
                &&& goes(f, body, Input::Inherit, Output::Piped, None, a)
                &&& f.frames@ == rest.push(Frame::ForBody { name, words, next: (next + 1) as usize, body })
                &&& rt_with_var(r, f.rt, name@, words@[next as int]@)
            } else {
                placeholder_spawn(bs, rest, f, 0, a) && (!(a is Failed) ==> f.rt == r)
            },
            Frame::CaseWait { node, word, arm } => (!(a is Failed) ==> f.rt == r) && match b.arena@[
                node as int
            ] {
                Command::Case { arms, .. } => if exists|i: int| #[trigger] case_first(arms@, word@, arm + 1, i) {
                    forall|i: int|
                        #[trigger] case_first(arms@, word@, arm + 1, i) ==> goes(
                            f,
                            arms@[i].body,
                            Input::Inherit,
                            Output::Piped,
                            None,
                            a,
                        ) && f.frames@ == rest.push(Frame::CaseBody { node, word, arm: i as usize })
                } else {
                    placeholder_spawn(bs, rest, f, 0, a)
                },
                _ => true,
            },
            _ => a is Idle && f.frames@ == b.frames@ && f.rt == r,
        }
    }
}

/// The machine `e` with nothing in progress between steps.
pub open spec fn settled(e: Evaluator) -> Evaluator {
    Evaluator { ctrl: Control::Idle, ..e }
}

/// Whether `w` is one of `builtins`.
pub fn names_builtin(builtins: &Vec<String>, w: &String) -> (r: bool)
    ensures
        r == is_builtin(builtins@, w@),
{
    let mut i: usize = 0;
    while i < builtins.len()
        invariant
            i <= builtins.len(),
            forall|j: int| 0 <= j < i ==> (#[trigger] builtins@[j])@ != w@,
        decreases builtins.len() - i,
    {
        if builtins[i] == *w {
            return true;
        }
        i = i + 1;
    }
    false
}

fn copy_assigns(assigns: &Vec<crate::ast::Assign>) -> (r: Vec<(String, String)>)
    ensures
        r@ == assigned(assigns@),
{
    let mut r: Vec<(String, String)> = Vec::new();
    let mut i: usize = 0;
    while i < assigns.len()
        invariant
            i <= assigns.len(),
            r@ == assigned(assigns@.subrange(0, i as int)),
        decreases assigns.len() - i,
    {
        r.push((assigns[i].var.clone(), assigns[i].val.clone()));
        i = i + 1;
        assert(r@ =~= assigned(assigns@.subrange(0, i as int)));
    }
    assert(assigns@.subrange(0, i as int) =~= assigns@);
    r
}

/// Every function body that `rt` defines is a node below `n`.
pub open spec fn fns_below(rt: Runtime, n: nat) -> bool {
    forall|name: Seq<char>|
        #[trigger] lookup(rt.functions@, name) matches Some(b) ==> b < n
}

/// The expansions of `args`, one for each.
pub open spec fn expanded(args: Seq<String>, rt: Runtime) -> Seq<Seq<char>> {
    args.map_values(|a: String| expansion(a@, rt))
}

/// Expands every word of `args`.
pub fn expand_args(rt: &Runtime, args: &Vec<String>) -> (r: Vec<String>)
    ensures
        views(r@) == expanded(args@, *rt),
{
    let mut r: Vec<String> = Vec::new();
    let mut i: usize = 0;
    while i < args.len()
        invariant
            i <= args.len(),
            views(r@) == expanded(args@.subrange(0, i as int), *rt),
        decreases args.len() - i,
    {
        let w = envsubst(rt, args[i].as_str());
        let ghost prev = r@;
        r.push(w);
        proof {
            assert(views(r@) =~= views(prev).push(w@));
            assert(args@.subrange(0, i + 1) =~= args@.subrange(0, i as int).push(args@[i as int]));
            assert(expanded(args@.subrange(0, i + 1), *rt) =~= expanded(args@.subrange(0, i as int), *rt).push(w@));
        }
        i = i + 1;
    }
    assert(args@.subrange(0, i as int) =~= args@);
    r
}

/// The words a `for` loop runs over: each word of its list split at spaces.
pub open spec fn for_words(wordlist: Seq<String>) -> Seq<Seq<char>>
    decreases wordlist.len(),
{
    if wordlist.len() == 0 {
        Seq::empty()
    } else {
        for_words(wordlist.drop_last()) + pieces(wordlist.last()@, ' ')
    }
}

/// Splits every word of a `for` list at spaces.
pub fn split_words(wordlist: &Vec<String>) -> (r: Vec<String>)
    ensures
        views(r@) == for_words(wordlist@),
{
    let mut r: Vec<String> = Vec::new();
    let mut i: usize = 0;
    while i < wordlist.len()
        invariant
            i <= wordlist.len(),
            views(r@) == for_words(wordlist@.subrange(0, i as int)),
        decreases wordlist.len() - i,
    {
        let mut parts = split_on(wordlist[i].as_str(), ' ');
        let ghost prev = r@;
        let ghost pv = parts@;
        r.append(&mut parts);
        proof {
            assert(r@ == prev + pv);
            assert(views(r@) =~= views(prev) + views(pv));
            assert(wordlist@.subrange(0, i + 1).drop_last() =~= wordlist@.subrange(0, i as int));
        }
        i = i + 1;
    }
    assert(wordlist@.subrange(0, i as int) =~= wordlist@);
    r
}

/// Whether some pattern of a `case` arm equals `word` (no globbing).
pub open spec fn arm_matches(arm: crate::ast::CaseArm, word: Seq<char>) -> bool {
    exists|k: int| 0 <= k < arm.pattern@.len() && (#[trigger] arm.pattern@[k])@ == word
}

fn arm_matches_exec(arm: &crate::ast::CaseArm, word: &String) -> (r: bool)
    ensures
        r == arm_matches(*arm, word@),
{
    let mut k: usize = 0;
    while k < arm.pattern.len()
        invariant
            k <= arm.pattern.len(),
            forall|j: int| 0 <= j < k ==> (#[trigger] arm.pattern@[j])@ != word@,
        decreases arm.pattern.len() - k,
    {
        if arm.pattern[k] == *word {
            return true;
        }
        k = k + 1;
    }
    false
}

/// The first arm at or after `from` that matches `word`.
pub fn next_arm(arms: &Vec<crate::ast::CaseArm>, word: &String, from: usize) -> (r: Option<usize>)
    ensures
        match r {
            Some(i) => from <= i < arms@.len() && arm_matches(arms@[i as int], word@) && forall|j: int|
                from <= j < i ==> !arm_matches(#[trigger] arms@[j], word@),
            None => forall|j: int| from <= j < arms@.len() ==> !arm_matches(#[trigger] arms@[j], word@),
        },
{
    let mut i: usize = from;
    while i < arms.len()
        invariant
            from <= i,
            forall|j: int| from <= j < i && j < arms@.len() ==> !arm_matches(#[trigger] arms@[j], word@),
        decreases arms.len() - i,
    {
        if arm_matches_exec(&arms[i], word) {
            return Some(i);
        }
        i = i + 1;
    }
    None
}

/// How one transition may change the stack of saved runtimes: not at all, by saving
/// the current runtime on entering a subshell, by restoring the innermost one on leaving
/// it, or by restoring the outermost one when the line is abandoned.
pub open spec fn keeps_saved(before: Evaluator, after: Evaluator) -> bool {
    ||| after.saved@ == before.saved@
    ||| after.saved@ == before.saved@.push(before.rt)
    ||| before.saved@.len() > 0 && after.saved@ == before.saved@.drop_last() && after.rt
        == before.saved@.last()
    ||| before.saved@.len() > 0 && after.saved@.len() == 0 && after.rt == before.saved@[0]
}

/// The line was abandoned: nothing is left to do, and the outermost runtime is back.
pub open spec fn abandoned(b: Evaluator, f: Evaluator) -> bool {
    &&& f.ctrl is Idle
    &&& f.frames@.len() == 0
    &&& f.saved@.len() == 0
    &&& b.saved@.len() == 0 ==> f.rt == b.rt
    &&& b.saved@.len() > 0 ==> f.rt == b.saved@[0]
}

/// A placeholder child exiting with `status` is launched; `frames` are what remains to do.
pub open spec fn placeholder_spawn(b: Evaluator, frames: Seq<Frame>, f: Evaluator, status: i32, a: Action) -> bool {
    &&& b.next_handle < usize::MAX ==> a == (Action::Spawn {
        handle: b.next_handle,
        launch: Launch::Placeholder { status },
    }) && f.ctrl == Control::Spawning(b.next_handle) && f.frames@ == frames && f.saved == b.saved
    &&& b.next_handle == usize::MAX ==> a == (Action::Failed { error: EvalError::SpawnFailed })
        && abandoned(b, f)
}

/// Evaluation goes on with `cmd` and these streams.
pub open spec fn goes(f: Evaluator, cmd: CmdId, input: Input, output: Output, pgid: Option<usize>, a: Action) -> bool {
    a is Continue && f.ctrl == (Control::Eval { cmd, input, output, pgid })
}

/// The app is asked to wait for child `h`.
pub open spec fn waits(f: Evaluator, h: usize, a: Action) -> bool {
    a == (Action::Wait { handle: h }) && f.ctrl == Control::Waiting(h)
}

pub open spec fn with_status(r: Runtime, code: i32) -> Runtime {
    Runtime { exit_status: code, ..r }
}

/// `f` is `b` with variable `name` bound to `v`.
pub open spec fn rt_with_var(b: Runtime, f: Runtime, name: Seq<char>, v: Seq<char>) -> bool {
    &&& lookup(f.env.vars@, name) matches Some(x) && x@ == v
    &&& forall|n: Seq<char>| n != name ==> #[trigger] lookup(f.env.vars@, n) == lookup(b.env.vars@, n)
    &&& f.working_dir == b.working_dir && f.name == b.name && f.args == b.args
    &&& f.exit_status == b.exit_status && f.functions == b.functions
}

/// `f` is `b` with function `name` bound to `body`.
pub open spec fn rt_with_fn(b: Runtime, f: Runtime, name: Seq<char>, body: CmdId) -> bool {
    &&& forall|n: Seq<char>|
        #[trigger] lookup(f.functions@, n) == if n == name {
            Some(body)
        } else {
            lookup(b.functions@, n)
        }
    &&& f.working_dir == b.working_dir && f.name == b.name && f.args == b.args
    &&& f.exit_status == b.exit_status && f.env == b.env
}

/// Arm `i` is the first arm at or after `from` that matches `w`.
pub open spec fn case_first(arms: Seq<crate::ast::CaseArm>, w: Seq<char>, from: int, i: int) -> bool {
    &&& from <= i < arms.len()
    &&& arm_matches(arms[i], w)
    &&& forall|j: int| from <= j < i ==> !arm_matches(#[trigger] arms[j], w)
}

/// The stack of saved runtimes is untouched, or the line was abandoned.
pub open spec fn keeps_or_abandons(before: Evaluator, after: Evaluator) -> bool {
    ||| after.saved@ == before.saved@
    ||| before.saved@.len() > 0 && after.saved@.len() == 0 && after.rt == before.saved@[0]
}

pub struct Evaluator {
    /// Every command node parsed so far; function bodies point into it.
    pub arena: Vec<Command>,
    pub rt: Runtime,
    /// Runtimes of the enclosing shells, one for each subshell being evaluated.
    pub saved: Vec<Runtime>,
    /// Names handled in process rather than launched.
    pub builtins: Vec<String>,
    pub frames: Vec<Frame>,
    pub ctrl: Control,
    /// The handle the next child of this line gets.
    pub next_handle: usize,
    /// `groups[h]`: the handle of the process-group leader of child `h`.
    pub groups: Vec<usize>,
}

impl Evaluator {
    pub open spec fn wf(&self) -> bool {
        &&& forall|i: int|
            0 <= i < self.arena@.len() ==> (#[trigger] self.arena@[i]).children_below(
                self.arena@.len(),
            )
        &&& self.groups@.len() == self.next_handle
        &&& forall|h: int| 0 <= h < self.groups@.len() ==> #[trigger] self.groups@[h] < self.next_handle
        &&& ctrl_ok(self.ctrl, self.arena@.len(), self.next_handle as nat)
        &&& forall|i: int| 0 <= i < self.frames@.len() ==> frame_ok(#[trigger] self.frames@[i], self.arena@)
        &&& self.saved@.len() == subshells(self.frames@)
        &&& fns_below(self.rt, self.arena@.len())
        &&& forall|k: int| 0 <= k < self.saved@.len() ==> fns_below(#[trigger] self.saved@[k], self.arena@.len())
    }

    /// A machine over `arena`, whose nodes point into it, with the functions `rt` defines.
    pub fn new(arena: Vec<Command>, rt: Runtime, builtins: Vec<String>) -> (r: Evaluator)
        requires
            forall|i: int| 0 <= i < arena@.len() ==> (#[trigger] arena@[i]).children_below(arena@.len()),
            fns_below(rt, arena@.len()),
        ensures
            r.wf(),
            r.arena == arena,
            r.rt == rt,
            r.builtins == builtins,
            r.ctrl is Idle,
    {
        Evaluator {
            arena,
            rt,
            saved: Vec::new(),
            builtins,
            frames: Vec::new(),
            ctrl: Control::Idle,
            next_handle: 0,
            groups: Vec::new(),
        }
    }

    fn push_frame(&mut self, f: Frame)
        ensures
            final(self).frames@ == old(self).frames@.push(f),
            subshells(final(self).frames@) == subshells(old(self).frames@) + if f is SubshellEnd {
                1nat
            } else {
                0nat
            },
            final(self).arena == old(self).arena,
            final(self).rt == old(self).rt,
            final(self).saved == old(self).saved,
            final(self).builtins == old(self).builtins,
            final(self).ctrl == old(self).ctrl,
            final(self).next_handle == old(self).next_handle,
            final(self).groups == old(self).groups,
    {
        self.frames.push(f);
        assert(self.frames@.drop_last() =~= old(self).frames@);
    }

    fn pop_frame(&mut self) -> (f: Option<Frame>)
        ensures
            old(self).frames@.len() == 0 ==> f is None && final(self).frames@ == old(self).frames@,
            old(self).frames@.len() > 0 ==> f == Some(old(self).frames@.last())
                && final(self).frames@ == old(self).frames@.drop_last(),
            final(self).arena == old(self).arena,
            final(self).rt == old(self).rt,
            final(self).saved == old(self).saved,
            final(self).builtins == old(self).builtins,
            final(self).ctrl == old(self).ctrl,
            final(self).next_handle == old(self).next_handle,
            final(self).groups == old(self).groups,
    {
        self.frames.pop()
    }

    /// Leaves the current line: the outermost runtime comes back, every frame goes.
    fn abandon(&mut self)
        requires
            old(self).wf(),
        ensures
            final(self).wf(),
            final(self).ctrl is Idle,
            final(self).frames@.len() == 0,
            final(self).saved@.len() == 0,
            old(self).saved@.len() == 0 ==> final(self).rt == old(self).rt,
            old(self).saved@.len() > 0 ==> final(self).rt == old(self).saved@[0],
            final(self).arena == old(self).arena,
            final(self).builtins == old(self).builtins,
    {
        let mut saved: Vec<Runtime> = Vec::new();
        core::mem::swap(&mut saved, &mut self.saved);
        let ghost first = saved@;
        while saved.len() > 1
            invariant
                saved@.len() >= 1 ==> saved@[0] == first[0],
                first.len() >= 1 ==> saved@.len() >= 1,
                first.len() == 0 ==> saved@.len() == 0,
            decreases saved.len(),
        {
            saved.pop();
        }
        match saved.pop() {
            Some(r) => {
                self.rt = r;
            },
            None => {},
        }
        self.frames = Vec::new();
        self.ctrl = Control::Idle;
    }

    fn fail(&mut self, error: EvalError) -> (a: Action)
        requires
            old(self).wf(),
        ensures
            keeps_or_abandons(*old(self), *final(self)),
            final(self).wf(),
            a == (Action::Failed { error }),
            abandoned(*old(self), *final(self)),
            final(self).ctrl is Idle,
            old(self).saved@.len() == 0 ==> final(self).rt == old(self).rt,
            old(self).saved@.len() > 0 ==> final(self).rt == old(self).saved@[0],
            final(self).arena == old(self).arena,
            final(self).builtins == old(self).builtins,
    {
        self.abandon();
        assert(old(self).saved@.len() == 0 ==> self.saved@ =~= old(self).saved@);
        Action::Failed { error }
    }

    /// Starts evaluating node `root` as a new line; a line still in progress is dropped.
    pub fn start(&mut self, root: CmdId)
        requires
            old(self).wf(),
            root < old(self).arena@.len(),
        ensures
            final(self).wf(),
            final(self).ctrl == (Control::Eval { cmd: root, input: Input::Inherit, output: Output::Piped, pgid: None }),
            final(self).frames@ == seq![Frame::Top],
            final(self).next_handle == 0,
            old(self).saved@.len() == 0 ==> final(self).rt == old(self).rt,
            old(self).saved@.len() > 0 ==> final(self).rt == old(self).saved@[0],
            final(self).arena == old(self).arena,
            final(self).builtins == old(self).builtins,
    {
        self.abandon();
        self.next_handle = 0;
        self.groups = Vec::new();
        self.push_frame(Frame::Top);
        assert(self.frames@ =~= seq![Frame::Top]);
        self.ctrl = Control::Eval { cmd: root, input: Input::Inherit, output: Output::Piped, pgid: None };
    }

    /// Launches a child; `pgid` names the group it joins.
    fn spawn(&mut self, launch: Launch, pgid: Option<usize>) -> (a: Action)
        requires
            old(self).wf(),
            old(self).ctrl is Idle,
            opt_handle_ok(pgid, old(self).next_handle as nat),
        ensures
            keeps_or_abandons(*old(self), *final(self)),
            final(self).wf(),
            final(self).rt == old(self).rt || (a is Failed && final(self).rt == old(self).saved@[0]),
            final(self).arena == old(self).arena,
            final(self).builtins == old(self).builtins,
            old(self).next_handle < usize::MAX ==> a == (Action::Spawn { handle: old(self).next_handle, launch })
                && final(self).ctrl == Control::Spawning(old(self).next_handle)
                && final(self).frames == old(self).frames
                && final(self).saved == old(self).saved
                && final(self).next_handle == old(self).next_handle + 1,
            old(self).next_handle == usize::MAX ==> a == (Action::Failed { error: EvalError::SpawnFailed }),
            a is Failed ==> abandoned(*old(self), *final(self)),
            final(self).ctrl is Spawning || final(self).ctrl is Idle,
    {
        if self.next_handle == usize::MAX {
            return self.fail(EvalError::SpawnFailed);
        }
        let h = self.next_handle;
        let g = match pgid {
            Some(p) => p,
            None => h,
        };
        self.groups.push(g);
        self.next_handle = h + 1;
        self.ctrl = Control::Spawning(h);
        Action::Spawn { handle: h, launch }
    }

    fn placeholder(&mut self, status: i32) -> (a: Action)
        requires
            old(self).wf(),
            old(self).ctrl is Idle,
        ensures
            keeps_or_abandons(*old(self), *final(self)),
            final(self).wf(),
            final(self).rt == old(self).rt || (a is Failed && final(self).rt == old(self).saved@[0]),
            final(self).arena == old(self).arena,
            final(self).builtins == old(self).builtins,
            old(self).next_handle < usize::MAX ==> a == (Action::Spawn {
                handle: old(self).next_handle,
                launch: Launch::Placeholder { status },
            }) && final(self).frames == old(self).frames && final(self).saved == old(self).saved,
            old(self).next_handle == usize::MAX ==> a == (Action::Failed { error: EvalError::SpawnFailed }),
            final(self).ctrl is Spawning || final(self).ctrl is Idle,
            placeholder_spawn(*old(self), old(self).frames@, *final(self), status, a),
            !(a is Failed) ==> final(self).rt == old(self).rt,
    {
        self.spawn(Launch::Placeholder { status }, None)
    }

    /// Waits for child `h` before going on.
    fn wait(&mut self, h: usize) -> (a: Action)
        requires
            old(self).wf(),
            h < old(self).next_handle,
        ensures
            keeps_or_abandons(*old(self), *final(self)),
            final(self).wf(),
            a == (Action::Wait { handle: h }),
            final(self).ctrl == Control::Waiting(h),
            final(self).rt == old(self).rt,
            final(self).frames == old(self).frames,
            final(self).saved == old(self).saved,
            final(self).arena == old(self).arena,
            final(self).builtins == old(self).builtins,
            final(self).next_handle == old(self).next_handle,
    {
        self.ctrl = Control::Waiting(h);
        Action::Wait { handle: h }
    }

    /// Goes on with `cmd` on the caller's behalf, with the given streams.
    fn go(&mut self, cmd: CmdId, input: Input, output: Output, pgid: Option<usize>) -> (a: Action)
        requires
            old(self).wf(),
            cmd < old(self).arena@.len(),
            opt_handle_ok(pgid, old(self).next_handle as nat),
        ensures
            keeps_or_abandons(*old(self), *final(self)),
            final(self).wf(),
            a is Continue,
            final(self).ctrl == (Control::Eval { cmd, input, output, pgid }),
            final(self).rt == old(self).rt,
            final(self).frames == old(self).frames,
            final(self).saved == old(self).saved,
            final(self).arena == old(self).arena,
            final(self).builtins == old(self).builtins,
            final(self).next_handle == old(self).next_handle,
    {
        self.ctrl = Control::Eval { cmd, input, output, pgid };
        Action::Continue
    }

    /// Evaluates a simple command: a builtin first, then a function, then an external program.
    pub fn eval_simple(&mut self, cmd: CmdId, input: Input, output: Output, pgid: Option<usize>) -> (a: Action)
        requires
            old(self).wf(),
            old(self).ctrl is Idle,
            cmd < old(self).arena@.len(),
            old(self).arena@[cmd as int] is Simple,
            opt_handle_ok(pgid, old(self).next_handle as nat),
        ensures
            a is Failed ==> abandoned(*old(self), *final(self)),
            keeps_or_abandons(*old(self), *final(self)),
            final(self).wf(),
            final(self).arena == old(self).arena,
            final(self).builtins == old(self).builtins,
            ({
                let node = old(self).arena@[cmd as int];
                simple_step(
                    *old(self),
                    *final(self),
                    node->Simple_args@,
                    node->Simple_redirects@,
                    node->Simple_assigns@,
                    input,
                    output,
                    pgid,
                    a,
                )
            }),
    {
        proof {
            reveal_strlit("cd");
            reveal_strlit("exit");
        }
        let ghost before = *self;
        let ghost node = self.arena@[cmd as int];
        let ghost st_g = redirected(node->Simple_redirects@, Streams { input, output });
        let (words, streams, envs) = match &self.arena[cmd] {
            Command::Simple { assigns, redirects, args } => {
                if args.len() == 0 {
                    (Vec::new(), Err(EvalError::EmptyCommand), Vec::new())
                } else {
                    (expand_args(&self.rt, args), plan_redirects(redirects, Streams { input, output }), copy_assigns(assigns))
                }
            },
            _ => (Vec::new(), Err(EvalError::EmptyCommand), Vec::new()),
        };
        let streams = match streams {
            Ok(st) => st,
            Err(e) => {
                return self.fail(e);
            },
        };
        let ghost wv = views(words@);
        assert(wv.len() > 0);
        let mut rest = words;
        let name = rest.remove(0);
        assert(views(rest@) =~= wv.drop_first());
        assert(name@ == wv[0]);
        if names_builtin(&self.builtins, &name) {
            if name == String::from_str("cd") {
                let dir = if rest.len() > 0 {
                    rest[0].clone()
                } else {
                    String::from_str("/")
                };
                assert(dir@ == cd_target(wv.drop_first()));
                let path = dir.clone();
                self.ctrl = Control::ChangingDir(dir);
                Action::ChangeDir { path }
            } else if name == String::from_str("exit") {
                Action::Exit
            } else {
                let a = self.spawn(Launch::Builtin { name, args: rest }, None);
                assert(simple_outcome(before, *self, wv, st_g, node->Simple_assigns@, pgid, a));
                a
            }
        } else {
            match self.rt.function(&name) {
                Some(body) => {
                    proof {
                        assert(lookup(self.rt.functions@, name@) matches Some(b) ==> b < self.arena@.len());
                    }
                    let a = self.go(body, Input::Inherit, Output::Piped, None);
                    assert(simple_outcome(before, *self, wv, st_g, node->Simple_assigns@, pgid, a));
                    a
                },
                None => {
                    let cwd = self.rt.working_dir.clone();
                    let a = self.spawn(
                        Launch::External { program: name, args: rest, envs, cwd, streams, pgid },
                        pgid,
                    );
                    assert(simple_outcome(before, *self, wv, st_g, node->Simple_assigns@, pgid, a));
                    a
                },
            }
        }
    }

    /// Evaluates node `cmd` with the given streams and process group.
    #[verifier::rlimit(80)]
    pub fn eval_node(&mut self, cmd: CmdId, input: Input, output: Output, pgid: Option<usize>) -> (a: Action)
        requires
            old(self).wf(),
            old(self).ctrl is Idle,
            cmd < old(self).arena@.len(),
            opt_handle_ok(pgid, old(self).next_handle as nat),
        ensures
            keeps_saved(*old(self), *final(self)),
            final(self).wf(),
            final(self).arena == old(self).arena,
            final(self).builtins == old(self).builtins,
            node_step(*old(self), *final(self), cmd, input, output, pgid, a),
    {
        match &self.arena[cmd] {
            Command::Simple { .. } => self.eval_simple(cmd, input, output, pgid),
            Command::Pipeline(l, r) => {
                let (l, r) = (*l, *r);
                self.push_frame(Frame::PipeRight { right: r, output });
                self.go(l, input, Output::Piped, pgid)
            },
            Command::And(l, r) => {
                let (l, r) = (*l, *r);
                self.push_frame(Frame::Guard { right: r, on_success: true });
                self.go(l, Input::Inherit, Output::Piped, None)
            },
            Command::Or(l, r) => {
                let (l, r) = (*l, *r);
                self.push_frame(Frame::Guard { right: r, on_success: false });
                self.go(l, Input::Inherit, Output::Piped, None)
            },
            Command::Not(inner) => {
                let inner = *inner;
                self.go(inner, input, output, None)
            },
            Command::AsyncList(l, r) => {
                let (l, r) = (*l, *r);
                if let Some(r) = r {
                    self.push_frame(Frame::AsyncRight { right: r });
                }
                self.go(l, Input::Inherit, Output::Piped, None)
            },
            Command::SeqList(l, r) => {
                let (l, r) = (*l, *r);
                if let Some(r) = r {
                    self.push_frame(Frame::SeqWait { right: r });
                }
                self.go(l, Input::Inherit, Output::Piped, None)
            },
            Command::Subshell(inner) => {
                let inner = *inner;
                let copy = self.rt.copy();
                let mut outer = copy;
                core::mem::swap(&mut outer, &mut self.rt);
                self.saved.push(outer);
                self.push_frame(Frame::SubshellEnd);
                self.go(inner, Input::Inherit, Output::Piped, None)
            },
            Command::If { conds, else_part } => {
                if conds.len() > 0 {
                    let c0 = conds[0].cond;
                    self.push_frame(Frame::IfCond { node: cmd, arm: 0 });
                    self.go(c0, Input::Inherit, Output::Piped, None)
                } else {
                    match *else_part {
                        Some(e) => self.go(e, Input::Inherit, Output::Piped, None),
                        None => self.placeholder(0),
                    }
                }
            },
            Command::While { cond, body } => {
                let (cond, body) = (*cond, *body);
                self.push_frame(Frame::LoopCond { cond, body, until: false });
                self.go(cond, Input::Inherit, Output::Piped, None)
            },
            Command::Until { cond, body } => {
                let (cond, body) = (*cond, *body);
                self.push_frame(Frame::LoopCond { cond, body, until: true });
                self.go(cond, Input::Inherit, Output::Piped, None)
            },
            Command::For { name, wordlist, body } => {
                let body = *body;
                let name = name.clone();
                let words = split_words(wordlist);
                if words.len() == 0 {
                    self.placeholder(0)
                } else {
                    let ghost b_rt = self.rt;
                    let first = words[0].clone();
                    assert(views(words@)[0] == first@);
                    self.rt.env.set(name.clone(), first);
                    assert(lookup(self.rt.env.vars@, name@) == Some(first));
                    assert(rt_with_var(b_rt, self.rt, name@, views(words@)[0]));
                    let ghost fr = self.frames@;
                    self.push_frame(Frame::ForBody { name, words, next: 1, body });
                    assert(self.frames@.drop_last() =~= fr);
                    self.go(body, Input::Inherit, Output::Piped, None)
                }
            },
            Command::Case { word, arms } => {
                let w = envsubst(&self.rt, word.as_str());
                match next_arm(arms, &w, 0) {
                    Some(i) => {
                        let b = arms[i].body;
                        assert(case_first(arms@, w@, 0, i as int));
                        assert forall|k: int| #[trigger] case_first(arms@, w@, 0, k) implies k == i by {
                            if k < i {
                                assert(!arm_matches(arms@[k], w@));
                            } else if k > i {
                                assert(!arm_matches(arms@[i as int], w@));
                            }
                        }
                        let ghost fr = self.frames@;
                        self.push_frame(Frame::CaseBody { node: cmd, word: w, arm: i });
                        assert(self.frames@.drop_last() =~= fr);
                        self.go(b, Input::Inherit, Output::Piped, None)
                    },
                    None => self.placeholder(0),
                }
            },
            Command::Fn { fname, body } => {
                let body = *body;
                if is_reserved(fname.as_str()) {
                    self.fail(EvalError::ReservedFunctionName)
                } else {
                    let f = fname.clone();
                    let ghost fname_v = fname@;
                    let a = self.placeholder(0);
                    match a {
                        Action::Failed { .. } => {},
                        _ => {
                            let ghost b_rt = self.rt;
                            bind(&mut self.rt.functions, f, body);
                            assert(rt_with_fn(b_rt, self.rt, fname_v, body));
                        },
                    }
                    a
                }
            },
            Command::Empty => self.placeholder(0),
        }
    }

    /// Goes on once the command under evaluation has produced child `h`.
    pub fn resume(&mut self, h: usize) -> (a: Action)
        requires
            old(self).wf(),
            old(self).ctrl is Idle,
            h < old(self).next_handle,
        ensures
            resume_step(*old(self), *final(self), h, a),
            keeps_saved(*old(self), *final(self)),
            final(self).wf(),
            final(self).arena == old(self).arena,
            final(self).builtins == old(self).builtins,
            old(self).frames@.len() > 0 ==> match old(self).frames@.last() {
                Frame::PipeRight { right, output } => a is Continue && final(self).ctrl == (Control::Eval {
                    cmd: right,
                    input: Input::PipeFrom(h),
                    output,
                    pgid: Some(old(self).groups@[h as int]),
                }) && final(self).frames@ == old(self).frames@.drop_last(),
                Frame::SubshellEnd => a is Continue && final(self).rt == old(self).saved@.last()
                    && final(self).saved@ == old(self).saved@.drop_last()
                    && final(self).ctrl == Control::Return(h)
                    && final(self).frames@ == old(self).frames@.drop_last(),
                Frame::Guard { right, on_success } => a == (Action::Wait { handle: h })
                    && final(self).frames@ == old(self).frames@.drop_last().push(
                    Frame::GuardWait { right, on_success },
                ),
                Frame::Top => a == (Action::Wait { handle: h }) && final(self).frames@ == old(self).frames@.drop_last().push(Frame::TopWait),
                _ => true,
            },
    {
        let ghost before = *self;
        let f = match self.pop_frame() {
            Some(f) => f,
            None => {
                return Action::Idle;
            },
        };
        proof {
            assert(frame_ok(before.frames@[before.frames@.len() - 1], self.arena@));
            assert(self.saved@.len() == subshells(before.frames@.drop_last()) + if f is SubshellEnd {
                1nat
            } else {
                0nat
            });
        }
        match f {
            Frame::Top => {
                self.push_frame(Frame::TopWait);
                self.wait(h)
            },
            Frame::PipeRight { right, output } => {
                let g = self.groups[h];
                self.go(right, Input::PipeFrom(h), output, Some(g))
            },
            Frame::Guard { right, on_success } => {
                self.push_frame(Frame::GuardWait { right, on_success });
                self.wait(h)
            },
            Frame::AsyncRight { right } => self.go(right, Input::Inherit, Output::Piped, None),
            Frame::SeqWait { right } => {
                self.push_frame(Frame::SeqThen { right });
                self.wait(h)
            },
            Frame::SubshellEnd => {
                let outer = self.saved.pop();
                match outer {
                    Some(r) => {
                        self.rt = r;
                    },
                    None => {},
                }
                self.ctrl = Control::Return(h);
                Action::Continue
            },
            Frame::IfCond { node, arm } => {
                self.push_frame(Frame::IfWait { node, arm });
                self.wait(h)
            },
            Frame::LoopCond { cond, body, until } => {
                self.push_frame(Frame::LoopCondWait { cond, body, until });
                self.wait(h)
            },
            Frame::LoopBody { cond, body, until } => {
                self.push_frame(Frame::LoopBodyWait { cond, body, until });
                self.wait(h)
            },
            Frame::ForBody { name, words, next, body } => {
                self.push_frame(Frame::ForWait { name, words, next, body });
                self.wait(h)
            },
            Frame::CaseBody { node, word, arm } => {
                self.push_frame(Frame::CaseWait { node, word, arm });
                self.wait(h)
            },
            other => {
                // a frame that waits for an exit: the protocol was not followed
                self.push_frame(other);
                assert(self.frames@ =~= before.frames@);
                self.wait(h)
            },
        }
    }

    /// Goes on once the awaited child has exited with `code`.
    pub fn on_exit(&mut self, code: i32) -> (a: Action)
        requires
            old(self).wf(),
            old(self).ctrl is Idle,
        ensures
            exit_step(*old(self), *final(self), code, a),
            keeps_saved(*old(self), *final(self)),
            final(self).wf(),
            final(self).arena == old(self).arena,
            final(self).builtins == old(self).builtins,
            !(a is Failed) ==> final(self).rt.exit_status == code,
            old(self).frames@.len() > 0 ==> (old(self).frames@.last() matches Frame::GuardWait { right, on_success }
                ==> (code == 0) == on_success ==> a is Continue && final(self).ctrl == (Control::Eval {
                    cmd: right,
                    input: Input::Inherit,
                    output: Output::Piped,
                    pgid: None,
                })),
            old(self).frames@.len() > 0 ==> (old(self).frames@.last() matches Frame::GuardWait { right, on_success }
                ==> (code == 0) != on_success ==> !(final(self).ctrl is Eval) && (a is Failed || a == (Action::Spawn {
                    handle: old(self).next_handle,
                    launch: Launch::Placeholder { status: code },
                }))),
            old(self).frames@.len() > 0 ==> (old(self).frames@.last() is TopWait ==> a == (Action::Finished {
                status: code,
            }) && final(self).ctrl is Idle),
    {
        self.rt.exit_status = code;
        let ghost before = *self;
        let f = match self.pop_frame() {
            Some(f) => f,
            None => {
                return Action::Idle;
            },
        };
        proof {
            assert(frame_ok(before.frames@[before.frames@.len() - 1], self.arena@));
        }
        match f {
            Frame::TopWait => {
                Action::Finished { status: code }
            },
            Frame::GuardWait { right, on_success } => {
                if (code == 0) == on_success {
                    self.go(right, Input::Inherit, Output::Piped, None)
                } else {
                    self.placeholder(code)
                }
            },
            Frame::SeqThen { right } => self.go(right, Input::Inherit, Output::Piped, None),
            Frame::IfWait { node, arm } => {
                proof {
                    assert(self.arena@[node as int].children_below(self.arena@.len()));
                }
                let (body, next, else_part, n) = match &self.arena[node] {
                    Command::If { conds, else_part } => {
                        assert(arm < conds@.len());
                        assert(conds@[arm as int].cond < self.arena@.len());
                        let len = conds.len();
                        let next = if arm + 1 < len {
                            Some(conds[arm + 1].cond)
                        } else {
                            None
                        };
                        (conds[arm].body, next, *else_part, conds.len())
                    },
                    _ => (0, None, None, 0),
                };
                if code == 0 {
                    self.go(body, Input::Inherit, Output::Piped, None)
                } else {
                    match next {
                        Some(c) => {
                            self.push_frame(Frame::IfCond { node, arm: arm + 1 });
                            self.go(c, Input::Inherit, Output::Piped, None)
                        },
                        None => match else_part {
                            Some(e) => self.go(e, Input::Inherit, Output::Piped, None),
                            None => self.placeholder(0),
                        },
                    }
                }
            },
            Frame::LoopCondWait { cond, body, until } => {
                if (code == 0) != until {
                    self.push_frame(Frame::LoopBody { cond, body, until });
                    self.go(body, Input::Inherit, Output::Piped, None)
                } else {
                    self.placeholder(0)
                }
            },
            Frame::LoopBodyWait { cond, body, until } => {
                self.push_frame(Frame::LoopCond { cond, body, until });
                self.go(cond, Input::Inherit, Output::Piped, None)
            },
            Frame::ForWait { name, words, next, body } => {
                if next < words.len() {
                    self.rt.env.set(name.clone(), words[next].clone());
                    self.push_frame(Frame::ForBody { name, words, next: next + 1, body });
                    self.go(body, Input::Inherit, Output::Piped, None)
                } else {
                    self.placeholder(0)
                }
            },
            Frame::CaseWait { node, word, arm } => {
                let found = match &self.arena[node] {
                    Command::Case { arms, .. } => {
                        let len = arms.len();
                        assert(arm < len);
                        match next_arm(arms, &word, arm + 1) {
                            Some(i) => {
                                proof {
                                    let from = arm + 1;
                                    assert(case_first(arms@, word@, from, i as int));
                                    assert forall|k: int| #[trigger] case_first(arms@, word@, from, k) implies k
                                        == i by {
                                        if k < i {
                                            assert(!arm_matches(arms@[k], word@));
                                        } else if k > i {
                                            assert(!arm_matches(arms@[i as int], word@));
                                        }
                                    }
                                }
                                Some((i, arms[i].body))
                            },
                            None => None,
                        }
                    },
                    _ => None,
                };
                match found {
                    Some((i, b)) => {
                        self.push_frame(Frame::CaseBody { node, word, arm: i });
                        self.go(b, Input::Inherit, Output::Piped, None)
                    },
                    None => self.placeholder(0),
                }
            },
            other => {
                // a frame that waits for a child, not an exit: the protocol was not followed
                self.push_frame(other);
                assert(self.frames@ =~= before.frames@);
                Action::Idle
            },
        }
    }

    /// One step of the machine: takes the outcome of the last action, returns the next action.
    pub fn step(&mut self, event: Event) -> (a: Action)
        requires
            old(self).wf(),
        ensures
            keeps_saved(*old(self), *final(self)),
            final(self).wf(),
            final(self).arena == old(self).arena,
            final(self).builtins == old(self).builtins,
            event matches Event::Failed(e) ==> a == (Action::Failed { error: e }) && abandoned(
                *old(self),
                *final(self),
            ),
            !(event is Failed) ==> match old(self).ctrl {
                Control::Idle => a is Idle && *final(self) == *old(self),
                Control::Eval { cmd, input, output, pgid } => node_step(
                    settled(*old(self)),
                    *final(self),
                    cmd,
                    input,
                    output,
                    pgid,
                    a,
                ),
                Control::Return(h) => resume_step(settled(*old(self)), *final(self), h, a),
                Control::Spawning(h) => resume_step(settled(*old(self)), *final(self), h, a),
                Control::Waiting(h) => match event {
                    Event::Exited(code) => exit_step(settled(*old(self)), *final(self), code, a),
                    _ => waits(*final(self), h, a) && final(self).rt == old(self).rt,
                },
                Control::ChangingDir(p) => placeholder_spawn(
                    settled(*old(self)),
                    old(self).frames@,
                    *final(self),
                    0,
                    a,
                ) && (!(a is Failed) ==> final(self).rt == Runtime { working_dir: p, ..old(self).rt }),
            },
    {
        if let Event::Failed(e) = event {
            return self.fail(e);
        }
        let mut c = Control::Idle;
        core::mem::swap(&mut c, &mut self.ctrl);
        match c {
            Control::Idle => Action::Idle,
            Control::Eval { cmd, input, output, pgid } => self.eval_node(cmd, input, output, pgid),
            Control::Return(h) => self.resume(h),
            Control::Spawning(h) => self.resume(h),
            Control::Waiting(h) => match event {
                Event::Exited(code) => self.on_exit(code),
                _ => self.wait(h),
            },
            Control::ChangingDir(p) => {
                let a = self.placeholder(0);
                match a {
                    Action::Failed { .. } => {},
                    _ => {
                        self.rt.working_dir = p;
                    },
                }
                a
            },
        }
    }

    /// Adds a node whose sub-commands are already in the arena; an `if` needs an arm.
    #[verifier::rlimit(80)]
    pub fn add(&mut self, c: Command) -> (r: Option<CmdId>)
        requires
            old(self).wf(),
        ensures
            final(self).wf(),
            final(self).rt == old(self).rt,
            r is Some <==> c.children_below(old(self).arena@.len()) && !(c is If && c->If_conds@.len()
                == 0),
            r is Some ==> r == Some(old(self).arena@.len() as usize) && final(self).arena@
                == old(self).arena@.push(c),
            r is None ==> final(self).arena == old(self).arena,
    {
        let n = self.arena.len();
        let ok = match &c {
            Command::Simple { .. } | Command::Empty => true,
            Command::Pipeline(a, b) => *a < n && *b < n,
            Command::And(a, b) => *a < n && *b < n,
            Command::Or(a, b) => *a < n && *b < n,
            Command::Not(a) | Command::Subshell(a) => *a < n,
            Command::AsyncList(a, b) | Command::SeqList(a, b) => *a < n && match b {
                Some(b) => *b < n,
                None => true,
            },
            Command::If { conds, else_part } => {
                let mut all = conds.len() > 0 && match else_part {
                    Some(e) => *e < n,
                    None => true,
                };
                let mut i: usize = 0;
                while i < conds.len()
                    invariant
                        i <= conds@.len(),
                        all ==> forall|j: int|
                            0 <= j < i ==> #[trigger] conds@[j].cond < n && conds@[j].body < n,
                        all ==> conds@.len() > 0,
                        !all ==> !(conds@.len() > 0 && crate::ast::opt_below(*else_part, n as nat)
                            && forall|j: int|
                            0 <= j < conds@.len() ==> #[trigger] conds@[j].cond < n && conds@[j].body < n),
                        all ==> crate::ast::opt_below(*else_part, n as nat),
                    decreases conds.len() - i,
                {
                    if conds[i].cond >= n || conds[i].body >= n {
                        all = false;
                    }
                    i = i + 1;
                }
                all
            },
            Command::While { cond, body } | Command::Until { cond, body } => *cond < n && *body < n,
            Command::For { body, .. } | Command::Fn { body, .. } => *body < n,
            Command::Case { arms, .. } => {
                let mut all = true;
                let mut i: usize = 0;
                while i < arms.len()
                    invariant
                        i <= arms@.len(),
                        all ==> forall|j: int| 0 <= j < i ==> #[trigger] arms@[j].body < n,
                        !all ==> exists|j: int| 0 <= j < arms@.len() && #[trigger] arms@[j].body >= n,
                    decreases arms.len() - i,
                {
                    if arms[i].body >= n {
                        all = false;
                    }
                    i = i + 1;
                }
                all
            },
        };
        if !ok {
            return None;
        }
        let ghost old_arena = self.arena@;
        self.arena.push(c);
        proof {
            assert forall|i: int| 0 <= i < self.arena@.len() implies (#[trigger] self.arena@[i]).children_below(
                self.arena@.len(),
            ) by {
                if i < old_arena.len() {
                    assert(old_arena[i].children_below(old_arena.len()));
                }
            }
            assert forall|i: int| 0 <= i < self.frames@.len() implies frame_ok(#[trigger] self.frames@[i], self.arena@) by {
                assert(frame_ok(self.frames@[i], old_arena));
                assert(self.arena@.len() == old_arena.len() + 1);
                assert(forall|k: int| 0 <= k < old_arena.len() ==> self.arena@[k] == old_arena[k]);
            }
        }
        Some(n)
    }
}

} // verus!
