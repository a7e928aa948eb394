//! Per-invocation shell state: working directory, environment, positional
//! arguments, last exit status and defined functions.

use vstd::prelude::*;
use crate::ast::CmdId;
use crate::table::{bind, find_key, lookup};

verus! {

/// Environment variables, each bound to a string.
pub struct Env {
    pub vars: Vec<(String, String)>,
}

impl Env {
    /// The value of `name`; an unset variable reads as the empty string.
    pub open spec fn value(&self, name: Seq<char>) -> Seq<char> {
        match lookup(self.vars@, name) {
            Some(v) => v@,
            None => Seq::empty(),
        }
    }

    pub fn new() -> (r: Env)
        ensures
            forall|n: Seq<char>| #[trigger] lookup(r.vars@, n) is None,
    {
        let r = Env { vars: Vec::new() };
        assert forall|n: Seq<char>| #[trigger] lookup(r.vars@, n) is None by {
            reveal_with_fuel(lookup, 1);
        }
        r
    }

    pub fn get(&self, name: &String) -> (r: Option<String>)
        ensures
            r == lookup(self.vars@, name@),
    {
        match find_key(&self.vars, name) {
            Some(i) => Some(self.vars[i].1.clone()),
            None => None,
        }
    }

    /// The value of `name`, or the empty string when it is unset.
    pub fn get_or_empty(&self, name: &String) -> (r: String)
        ensures
            r@ == self.value(name@),
    {
        match self.get(name) {
            Some(v) => v,
            None => String::new(),
        }
    }

    pub fn set(&mut self, name: String, val: String)
        ensures
            forall|n: Seq<char>|
                #[trigger] lookup(final(self).vars@, n) == if n == name@ {
                    Some(val)
                } else {
                    lookup(old(self).vars@, n)
                },
    {
        bind(&mut self.vars, name, val);
    }

    pub fn copy(&self) -> (r: Env)
        ensures
            r.vars@ == self.vars@,
    {
        let mut v: Vec<(String, String)> = Vec::new();
        let mut i: usize = 0;
        while i < self.vars.len()
            invariant
                i <= self.vars.len(),
                v@ == self.vars@.subrange(0, i as int),
            decreases self.vars.len() - i,
        {
            let k = self.vars[i].0.clone();
            let x = self.vars[i].1.clone();
            v.push((k, x));
            i = i + 1;
            assert(v@ =~= self.vars@.subrange(0, i as int));
        }
        assert(v@ =~= self.vars@);
        Env { vars: v }
    }
}

/// State local to one shell invocation; a subshell works on a copy.
pub struct Runtime {
    pub working_dir: String,
    pub env: Env,
    /// Name of the shell or script, `$0`.
    pub name: String,
    /// Positional arguments; `$#` is their count.
    pub args: Vec<String>,
    /// Exit status of the most recent terminal child, `$?`.
    pub exit_status: i32,
    /// Defined functions, each bound to the arena index of its body.
    pub functions: Vec<(String, CmdId)>,
}

impl Runtime {
    pub fn new(working_dir: String, name: String) -> (r: Runtime)
        ensures
            r.working_dir == working_dir,
            r.name == name,
            r.args@.len() == 0,
            r.exit_status == 0,
            forall|n: Seq<char>| #[trigger] lookup(r.env.vars@, n) is None,
            forall|n: Seq<char>| #[trigger] lookup(r.functions@, n) is None,
    {
        let r = Runtime {
            working_dir,
            env: Env::new(),
            name,
            args: Vec::new(),
            exit_status: 0,
            functions: Vec::new(),
        };
        assert forall|n: Seq<char>| #[trigger] lookup(r.functions@, n) is None by {
            reveal_with_fuel(lookup, 1);
        }
        r
    }

    /// Same state, field by field.
    pub open spec fn same(&self, o: &Runtime) -> bool {
        &&& self.working_dir == o.working_dir
        &&& self.env.vars@ == o.env.vars@
        &&& self.name == o.name
        &&& self.args@ == o.args@
        &&& self.exit_status == o.exit_status
        &&& self.functions@ == o.functions@
    }

    /// The copy a subshell runs against.
    pub fn copy(&self) -> (r: Runtime)
        ensures
            r.same(self),
    {
        let mut f: Vec<(String, CmdId)> = Vec::new();
        let mut i: usize = 0;
        while i < self.functions.len()
            invariant
                i <= self.functions.len(),
                f@ == self.functions@.subrange(0, i as int),
            decreases self.functions.len() - i,
        {
            let k = self.functions[i].0.clone();
            f.push((k, self.functions[i].1));
            i = i + 1;
            assert(f@ =~= self.functions@.subrange(0, i as int));
        }
        assert(f@ =~= self.functions@);
        Runtime {
            working_dir: self.working_dir.clone(),
            env: self.env.copy(),
            name: self.name.clone(),
            args: crate::ast::copy_strings(&self.args),
            exit_status: self.exit_status,
            functions: f,
        }
    }

    /// The body bound to function `name`, if one is defined.
    pub fn function(&self, name: &String) -> (r: Option<CmdId>)
        ensures
            r == lookup(self.functions@, name@),
    {
        match find_key(&self.functions, name) {
            Some(i) => Some(self.functions[i].1),
            None => None,
        }
    }
}

} // verus!
