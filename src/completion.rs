//! Rule-based tab completion: the first rule whose predicate holds supplies
//! the candidates, kept when they extend the word under the cursor.

use vstd::prelude::*;
use crate::words::views;

verus! {

/// The words of the line being completed; the last one is under the cursor.
pub struct CompletionCtx {
    pub line: Vec<String>,
}

impl CompletionCtx {
    pub fn new(line: Vec<String>) -> (r: CompletionCtx)
        ensures
            r.line == line,
    {
        CompletionCtx { line }
    }

    /// Index of the word under the cursor: zero while the command name is typed.
    pub open spec fn arg_num_spec(&self) -> nat {
        if self.line@.len() == 0 {
            0
        } else {
            (self.line@.len() - 1) as nat
        }
    }

    /// The word under the cursor; the empty word on an empty line.
    pub open spec fn cur_word_spec(&self) -> Seq<char> {
        if self.line@.len() == 0 {
            Seq::empty()
        } else {
            self.line@.last()@
        }
    }

    pub fn arg_num(&self) -> (r: usize)
        ensures
            r == self.arg_num_spec(),
    {
        if self.line.len() == 0 {
            0
        } else {
            self.line.len() - 1
        }
    }

    pub fn cmd_name(&self) -> (r: Option<&String>)
        ensures
            r == if self.line@.len() == 0 {
                None
            } else {
                Some(&self.line@[0])
            },
    {
        if self.line.len() == 0 {
            None
        } else {
            Some(&self.line[0])
        }
    }

    pub fn cur_word(&self) -> (r: Option<&String>)
        ensures
            r == if self.line@.len() == 0 {
                None
            } else {
                Some(&self.line@.last())
            },
    {
        if self.line.len() == 0 {
            None
        } else {
            Some(&self.line[self.line.len() - 1])
        }
    }
}

/// Whether `s` begins with `p`.
pub fn starts_with(s: &str, p: &str) -> (r: bool)
    ensures
        r == p@.is_prefix_of(s@),
{
    let n = s.unicode_len();
    let m = p.unicode_len();
    if m > n {
        return false;
    }
    let mut i: usize = 0;
    while i < m
        invariant
            m <= n,
            n == s@.len(),
            m == p@.len(),
            i <= m,
            forall|j: int| 0 <= j < i ==> s@[j] == p@[j],
        decreases m - i,
    {
        if s.get_char(i) != p.get_char(i) {
            return false;
        }
        i = i + 1;
    }
    true
}

/// The word under the cursor, or the empty word.
fn cur_word_or_empty(ctx: &CompletionCtx) -> (r: String)
    ensures
        r@ == ctx.cur_word_spec(),
{
    match ctx.cur_word() {
        Some(w) => w.clone(),
        None => String::new(),
    }
}

/// A named test on the completion context.
pub enum PredKind {
    /// The command name is being completed.
    CmdName,
    /// An argument is being completed.
    Arg,
    /// The command is `git`.
    Git,
    /// The command is the given one.
    CmdNameEq(String),
    /// A flag, long or short, is being completed.
    Flag,
    ShortFlag,
    LongFlag,
}

pub open spec fn long_flag_spec(ctx: &CompletionCtx) -> bool {
    "--"@.is_prefix_of(ctx.cur_word_spec())
}

pub open spec fn short_flag_spec(ctx: &CompletionCtx) -> bool {
    "-"@.is_prefix_of(ctx.cur_word_spec()) && !long_flag_spec(ctx)
}

pub open spec fn cmdname_is(ctx: &CompletionCtx, name: Seq<char>) -> bool {
    ctx.line@.len() > 0 && ctx.line@[0]@ == name
}

pub open spec fn holds(k: PredKind, ctx: &CompletionCtx) -> bool {
    match k {
        PredKind::CmdName => ctx.arg_num_spec() == 0,
        PredKind::Arg => ctx.arg_num_spec() != 0,
        PredKind::Git => cmdname_is(ctx, "git"@),
        PredKind::CmdNameEq(n) => cmdname_is(ctx, n@),
        PredKind::Flag => long_flag_spec(ctx) || short_flag_spec(ctx),
        PredKind::ShortFlag => short_flag_spec(ctx),
        PredKind::LongFlag => long_flag_spec(ctx),
    }
}

/// Check if we are completing the command name
pub fn cmdname_pred(ctx: &CompletionCtx) -> (r: bool)
    ensures
        r == holds(PredKind::CmdName, ctx),
{
    ctx.arg_num() == 0
}

/// Check if we are attempting to complete an argument
pub fn arg_pred(ctx: &CompletionCtx) -> (r: bool)
    ensures
        r == holds(PredKind::Arg, ctx),
{
    ctx.arg_num() != 0
}

/// The test that the command name equals `cmd_name`.
pub fn cmdname_eq_pred(cmd_name: String) -> (r: PredKind)
    ensures
        r == PredKind::CmdNameEq(cmd_name),
{
    PredKind::CmdNameEq(cmd_name)
}

fn cmdname_eq(ctx: &CompletionCtx, name: &String) -> (r: bool)
    ensures
        r == cmdname_is(ctx, name@),
{
    match ctx.cmd_name() {
        Some(c) => *c == *name,
        None => false,
    }
}

pub fn git_pred(ctx: &CompletionCtx) -> (r: bool)
    ensures
        r == holds(PredKind::Git, ctx),
{
    cmdname_eq(ctx, &String::from_str("git"))
}

pub fn long_flag_pred(ctx: &CompletionCtx) -> (r: bool)
    ensures
        r == holds(PredKind::LongFlag, ctx),
{
    let w = cur_word_or_empty(ctx);
    starts_with(w.as_str(), "--")
}

pub fn short_flag_pred(ctx: &CompletionCtx) -> (r: bool)
    ensures
        r == holds(PredKind::ShortFlag, ctx),
{
    let w = cur_word_or_empty(ctx);
    starts_with(w.as_str(), "-") && !long_flag_pred(ctx)
}

/// Check if we are completing a flag
pub fn flag_pred(ctx: &CompletionCtx) -> (r: bool)
    ensures
        r == holds(PredKind::Flag, ctx),
{
    long_flag_pred(ctx) || short_flag_pred(ctx)
}

fn holds_exec(k: &PredKind, ctx: &CompletionCtx) -> (r: bool)
    ensures
        r == holds(*k, ctx),
{
    match k {
        PredKind::CmdName => cmdname_pred(ctx),
        PredKind::Arg => arg_pred(ctx),
        PredKind::Git => git_pred(ctx),
        PredKind::CmdNameEq(n) => cmdname_eq(ctx, n),
        PredKind::Flag => flag_pred(ctx),
        PredKind::ShortFlag => short_flag_pred(ctx),
        PredKind::LongFlag => long_flag_pred(ctx),
    }
}

/// A conjunction of tests.
pub struct Pred {
    pub all: Vec<PredKind>,
}

impl Pred {
    pub open spec fn holds_on(&self, ctx: &CompletionCtx) -> bool {
        forall|i: int| 0 <= i < self.all@.len() ==> holds(#[trigger] self.all@[i], ctx)
    }

    pub fn new(pred: PredKind) -> (r: Pred)
        ensures
            r.all@ == seq![pred],
    {
        let mut all: Vec<PredKind> = Vec::new();
        all.push(pred);
        assert(all@ =~= seq![pred]);
        Pred { all }
    }

    pub fn and(self, pred: PredKind) -> (r: Pred)
        ensures
            r.all@ == self.all@.push(pred),
    {
        let mut all = self.all;
        all.push(pred);
        Pred { all }
    }

    pub fn test(&self, ctx: &CompletionCtx) -> (r: bool)
        ensures
            r == self.holds_on(ctx),
    {
        let mut i: usize = 0;
        while i < self.all.len()
            invariant
                i <= self.all.len(),
                forall|j: int| 0 <= j < i ==> holds(#[trigger] self.all@[j], ctx),
            decreases self.all.len() - i,
        {
            if !holds_exec(&self.all[i], ctx) {
                return false;
            }
            i = i + 1;
        }
        true
    }
}

/// Where the candidates of a rule come from.
pub enum Action {
    Filename,
    Git,
    GitFlag,
    /// A fixed list, such as the executables found on `PATH`.
    Words(Vec<String>),
}

pub open spec fn git_words() -> Seq<Seq<char>> {
    seq!["status"@, "add"@, "commit"@]
}

pub open spec fn git_flag_words() -> Seq<Seq<char>> {
    seq!["--version"@, "--help"@, "--bare"@]
}

pub open spec fn filename_words() -> Seq<Seq<char>> {
    seq!["VALID!"@]
}

pub open spec fn candidates(a: Action) -> Seq<Seq<char>> {
    match a {
        Action::Filename => filename_words(),
        Action::Git => git_words(),
        Action::GitFlag => git_flag_words(),
        Action::Words(w) => views(w@),
    }
}

fn strings(a: &str, b: &str, c: &str) -> (r: Vec<String>)
    ensures
        views(r@) == seq![a@, b@, c@],
{
    let mut r: Vec<String> = Vec::new();
    r.push(a.to_owned());
    r.push(b.to_owned());
    r.push(c.to_owned());
    assert(views(r@) =~= seq![a@, b@, c@]);
    r
}

pub fn filename_action(ctx: &CompletionCtx) -> (r: Vec<String>)
    ensures
        views(r@) == filename_words(),
{
    let mut r: Vec<String> = Vec::new();
    r.push(String::from_str("VALID!"));
    assert(views(r@) =~= filename_words());
    r
}

pub fn git_action(ctx: &CompletionCtx) -> (r: Vec<String>)
    ensures
        views(r@) == git_words(),
{
    strings("status", "add", "commit")
}

pub fn git_flag_action(ctx: &CompletionCtx) -> (r: Vec<String>)
    ensures
        views(r@) == git_flag_words(),
{
    strings("--version", "--help", "--bare")
}

/// Completes command names from `executables` (what a scan of `PATH` found).
pub fn cmdname_action(executables: Vec<String>) -> (r: Action)
    ensures
        r == Action::Words(executables),
{
    Action::Words(executables)
}

fn run_action(a: &Action, ctx: &CompletionCtx) -> (r: Vec<String>)
    ensures
        views(r@) == candidates(*a),
{
    match a {
        Action::Filename => filename_action(ctx),
        Action::Git => git_action(ctx),
        Action::GitFlag => git_flag_action(ctx),
        Action::Words(w) => crate::ast::copy_strings(w),
    }
}

pub struct Rule(pub Pred, pub Action);

/// The words of `ws` that begin with `p`, in order.
pub open spec fn prefixed(ws: Seq<Seq<char>>, p: Seq<char>) -> Seq<Seq<char>>
    decreases ws.len(),
{
    if ws.len() == 0 {
        Seq::empty()
    } else if p.is_prefix_of(ws.last()) {
        prefixed(ws.drop_last(), p).push(ws.last())
    } else {
        prefixed(ws.drop_last(), p)
    }
}

/// Index of the first rule whose predicate holds.
pub open spec fn first_rule(rules: Seq<Rule>, ctx: &CompletionCtx, i: int) -> bool {
    &&& 0 <= i < rules.len()
    &&& rules[i].0.holds_on(ctx)
    &&& forall|j: int| 0 <= j < i ==> !(#[trigger] rules[j]).0.holds_on(ctx)
}

pub struct DefaultCompleter {
    pub rules: Vec<Rule>,
}

impl DefaultCompleter {
    pub fn new() -> (r: DefaultCompleter)
        ensures
            r.rules@.len() == 0,
    {
        DefaultCompleter { rules: Vec::new() }
    }

    /// Register a new rule to use
    pub fn register(&mut self, rule: Rule)
        ensures
            final(self).rules@ == old(self).rules@.push(rule),
    {
        self.rules.push(rule);
    }

    pub fn complete_helper(&self, ctx: &CompletionCtx) -> (r: Vec<String>)
        ensures
            (exists|i: int| first_rule(self.rules@, ctx, i)) ==> forall|i: int|
                first_rule(self.rules@, ctx, i) ==> views(r@) == prefixed(
                    candidates(self.rules@[i].1),
                    ctx.cur_word_spec(),
                ),
            (forall|i: int| 0 <= i < self.rules@.len() ==> !(#[trigger] self.rules@[i]).0.holds_on(ctx))
                ==> r@.len() == 0,
    {
        let mut i: usize = 0;
        while i < self.rules.len()
            invariant
                i <= self.rules.len(),
                forall|j: int| 0 <= j < i ==> !(#[trigger] self.rules@[j]).0.holds_on(ctx),
            decreases self.rules.len() - i,
        {
            if self.rules[i].0.test(ctx) {
                let all = run_action(&self.rules[i].1, ctx);
                let w = cur_word_or_empty(ctx);
                let r = keep_prefixed(&all, &w);
                proof {
                    assert forall|k: int| first_rule(self.rules@, ctx, k) implies k == i by {
                        if k < i {
                        } else if k > i {
                            assert(!self.rules@[i as int].0.holds_on(ctx));
                        }
                    }
                }
                return r;
            }
            i = i + 1;
        }
        Vec::new()
    }
}

/// The words of `ws` that begin with `p`.
pub fn keep_prefixed(ws: &Vec<String>, p: &String) -> (r: Vec<String>)
    ensures
        views(r@) == prefixed(views(ws@), p@),
{
    let mut r: Vec<String> = Vec::new();
    let mut i: usize = 0;
    while i < ws.len()
        invariant
            i <= ws.len(),
            views(r@) == prefixed(views(ws@.subrange(0, i as int)), p@),
        decreases ws.len() - i,
    {
        let ghost prev = r@;
        assert(views(ws@.subrange(0, i + 1)).drop_last() =~= views(ws@.subrange(0, i as int)));
        assert(views(ws@.subrange(0, i + 1)).last() == ws@[i as int]@);
        if starts_with(ws[i].as_str(), p.as_str()) {
            r.push(ws[i].clone());
            assert(views(r@) =~= views(prev).push(ws@[i as int]@));
        }
        i = i + 1;
    }
    assert(ws@.subrange(0, i as int) =~= ws@);
    r
}

impl Default for DefaultCompleter {
    /// The predefined rules: git flags, git subcommands, then file names for arguments.
    fn default() -> (r: DefaultCompleter)
        ensures
            r.rules@.len() == 3,
            r.rules@[0].0.all@ == seq![PredKind::Git, PredKind::Flag],
            r.rules@[0].1 == Action::GitFlag,
            r.rules@[1].0.all@ == seq![PredKind::Git],
            r.rules@[1].1 == Action::Git,
            r.rules@[2].0.all@ == seq![PredKind::Arg],
            r.rules@[2].1 == Action::Filename,
    {
        let mut comp = DefaultCompleter::new();
        comp.register(Rule(Pred::new(PredKind::Git).and(PredKind::Flag), Action::GitFlag));
        comp.register(Rule(Pred::new(PredKind::Git), Action::Git));
        comp.register(Rule(Pred::new(PredKind::Arg), Action::Filename));
        comp
    }
}

} // verus!
