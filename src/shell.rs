//! Shell-wide data: aliases, prompt, history, the builder of a shell
//! configuration, and the executable scan of `PATH`.

use vstd::prelude::*;
use crate::ast::{CmdId, Command};
use crate::runtime::{Env, Runtime};
use crate::table::{bind, find_key, lookup};
use crate::words::{pieces, split_on, views};

verus! {

/// Whole-line aliases: a line equal to a key is replaced by its value before parsing.
pub struct Alias {
    pub entries: Vec<(String, String)>,
}

/// The line that is parsed: `line` rewritten once by the alias table.
pub open spec fn alias_expansion(entries: Seq<(String, String)>, line: Seq<char>) -> Seq<char> {
    match lookup(entries, line) {
        Some(v) => v@,
        None => line,
    }
}

impl Alias {
    pub fn new() -> (r: Alias)
        ensures
            r.entries@.len() == 0,
    {
        Alias { entries: Vec::new() }
    }

    pub fn set(&mut self, name: String, replacement: String)
        ensures
            forall|n: Seq<char>|
                #[trigger] lookup(final(self).entries@, n) == if n == name@ {
                    Some(replacement)
                } else {
                    lookup(old(self).entries@, n)
                },
    {
        bind(&mut self.entries, name, replacement);
    }

    pub fn get(&self, line: &String) -> (r: Option<String>)
        ensures
            r == lookup(self.entries@, line@),
    {
        match find_key(&self.entries, line) {
            Some(i) => Some(self.entries[i].1.clone()),
            None => None,
        }
    }

    /// Applies the table to a raw line, once; the result is not looked up again.
    pub fn expand_line(&self, line: &String) -> (r: String)
        ensures
            r@ == alias_expansion(self.entries@, line@),
    {
        match self.get(line) {
            Some(v) => v,
            None => line.clone(),
        }
    }
}

/// Text shown before the cursor and at the right edge of the line.
pub struct Prompt {
    pub left: String,
    pub right: String,
}

/// Lines entered so far, oldest first.
pub struct History {
    pub items: Vec<String>,
}

impl History {
    pub fn new() -> (r: History)
        ensures
            r.items@.len() == 0,
    {
        History { items: Vec::new() }
    }

    pub fn push(&mut self, item: String)
        ensures
            final(self).items@ == old(self).items@.push(item),
    {
        self.items.push(item);
    }
}

/// Constant shell data: not changed while a line is evaluated.
pub struct Shell {
    /// Names of the builtin commands.
    pub builtins: Vec<String>,
}

/// State shared by every subshell of a session.
pub struct Context {
    pub history: History,
    pub alias: Alias,
    pub prompt: Prompt,
}

/// A shell configuration under construction; unset parts take their defaults.
pub struct ShellConfigBuilder {
    pub prompt: Option<Prompt>,
    pub history: Option<History>,
    pub alias: Option<Alias>,
    pub env: Option<Env>,
    /// Predefined functions: their bodies, and each name bound to a node of them.
    pub functions: Option<(Vec<Command>, Vec<(String, CmdId)>)>,
}

pub struct ShellConfig {
    pub shell: Shell,
    pub ctx: Context,
    pub env: Env,
    /// Command nodes the function table points into.
    pub arena: Vec<Command>,
    pub functions: Vec<(String, CmdId)>,
}

/// The builtins every shell has.
pub fn default_builtins() -> (r: Vec<String>)
    ensures
        views(r@) == seq!["cd"@, "exit"@],
{
    let mut r: Vec<String> = Vec::new();
    r.push(String::from_str("cd"));
    r.push(String::from_str("exit"));
    assert(views(r@) =~= seq!["cd"@, "exit"@]);
    r
}

impl ShellConfigBuilder {
    pub fn new() -> (r: ShellConfigBuilder)
        ensures
            r.prompt is None && r.history is None && r.alias is None && r.env is None && r.functions is None,
    {
        ShellConfigBuilder { prompt: None, history: None, alias: None, env: None, functions: None }
    }

    pub fn with_prompt(self, prompt: Prompt) -> (r: ShellConfigBuilder)
        ensures
            r.prompt == Some(prompt),
            r.history == self.history && r.alias == self.alias && r.env == self.env && r.functions == self.functions,
    {
        ShellConfigBuilder { prompt: Some(prompt), ..self }
    }

    pub fn with_history(self, history: History) -> (r: ShellConfigBuilder)
        ensures
            r.history == Some(history),
            r.prompt == self.prompt && r.alias == self.alias && r.env == self.env && r.functions == self.functions,
    {
        ShellConfigBuilder { history: Some(history), ..self }
    }

    pub fn with_alias(self, alias: Alias) -> (r: ShellConfigBuilder)
        ensures
            r.alias == Some(alias),
            r.prompt == self.prompt && r.history == self.history && r.env == self.env && r.functions == self.functions,
    {
        ShellConfigBuilder { alias: Some(alias), ..self }
    }

    pub fn with_env(self, env: Env) -> (r: ShellConfigBuilder)
        ensures
            r.env == Some(env),
            r.prompt == self.prompt && r.history == self.history && r.alias == self.alias && r.functions == self.functions,
    {
        ShellConfigBuilder { env: Some(env), ..self }
    }

    /// Functions defined before the session starts.
    pub fn with_functions(self, arena: Vec<Command>, functions: Vec<(String, CmdId)>) -> (r: ShellConfigBuilder)
        ensures
            r.functions == Some((arena, functions)),
            r.prompt == self.prompt && r.history == self.history && r.alias == self.alias && r.env == self.env,
    {
        ShellConfigBuilder { functions: Some((arena, functions)), ..self }
    }

    /// The configuration, with defaults for what was not set.
    pub fn build(self) -> (r: ShellConfig)
        ensures
            self.prompt matches Some(p) ==> r.ctx.prompt == p,
            self.history matches Some(h) ==> r.ctx.history == h,
            self.history is None ==> r.ctx.history.items@.len() == 0,
            self.alias matches Some(a) ==> r.ctx.alias == a,
            self.alias is None ==> r.ctx.alias.entries@.len() == 0,
            self.env matches Some(e) ==> r.env == e,
            views(r.shell.builtins@) == seq!["cd"@, "exit"@],
            self.functions matches Some((a, f)) ==> r.arena == a && r.functions == f,
            self.functions is None ==> r.arena@.len() == 0 && r.functions@.len() == 0,
    {
        let prompt = match self.prompt {
            Some(p) => p,
            None => Prompt { left: String::from_str("> "), right: String::new() },
        };
        let history = match self.history {
            Some(h) => h,
            None => History::new(),
        };
        let alias = match self.alias {
            Some(a) => a,
            None => Alias::new(),
        };
        let env = match self.env {
            Some(e) => e,
            None => Env::new(),
        };
        let (arena, functions) = match self.functions {
            Some(p) => p,
            None => (Vec::new(), Vec::new()),
        };
        ShellConfig {
            shell: Shell { builtins: default_builtins() },
            ctx: Context { history, alias, prompt },
            env,
            arena,
            functions,
        }
    }
}

/// The directories listed in a `PATH` value, in order.
pub fn path_dirs(path_str: &str) -> (r: Vec<String>)
    ensures
        views(r@) == pieces(path_str@, ':'),
{
    split_on(path_str, ':')
}

/// Whether a file with permission bits `mode` is executable by someone.
pub open spec fn is_executable(mode: u32) -> bool {
    mode & 0o111u32 != 0
}

/// The names, in order, of the directory entries whose mode makes them executable.
pub open spec fn executables(entries: Seq<(String, u32)>) -> Seq<Seq<char>>
    decreases entries.len(),
{
    if entries.len() == 0 {
        Seq::empty()
    } else if is_executable(entries.last().1) {
        executables(entries.drop_last()).push(entries.last().0@)
    } else {
        executables(entries.drop_last())
    }
}

/// Keeps the executable entries of a directory listing of `(name, mode)` pairs.
pub fn executables_in(entries: &Vec<(String, u32)>) -> (r: Vec<String>)
    ensures
        views(r@) == executables(entries@),
{
    let mut r: Vec<String> = Vec::new();
    let mut i: usize = 0;
    while i < entries.len()
        invariant
            i <= entries.len(),
            views(r@) == executables(entries@.subrange(0, i as int)),
        decreases entries.len() - i,
    {
        let ghost prev = r@;
        assert(entries@.subrange(0, i + 1).drop_last() =~= entries@.subrange(0, i as int));
        if entries[i].1 & 0o111u32 != 0 {
            r.push(entries[i].0.clone());
            assert(views(r@) =~= views(prev).push(entries@[i as int].0@));
        }
        i = i + 1;
    }
    assert(entries@.subrange(0, i as int) =~= entries@);
    r
}

/// The runtime a session starts with: status zero, no arguments, named `shrs`, with the
/// configured environment and function table.
pub fn session_runtime(working_dir: String, env: Env, functions: Vec<(String, CmdId)>) -> (r: Runtime)
    ensures
        r.working_dir == working_dir,
        r.env == env,
        r.name@ == "shrs"@,
        r.exit_status == 0,
        r.args@.len() == 0,
        r.functions == functions,
{
    let mut rt = Runtime::new(working_dir, String::from_str("shrs"));
    rt.env = env;
    rt.functions = functions;
    rt
}

} // verus!
