//! Word expansion: `$?`, `$#`, `$0`, `$NAME`, `${NAME}` and `~`.

use vstd::prelude::*;
use crate::runtime::{Env, Runtime};

verus! {

pub open spec fn is_name_char(c: char) -> bool {
    ('a' <= c && c <= 'z') || ('A' <= c && c <= 'Z') || c == '_'
}

/// Length of the longest prefix of `s` made of name characters.
pub open spec fn name_len(s: Seq<char>) -> nat
    decreases s.len(),
{
    if s.len() > 0 && is_name_char(s[0]) {
        1 + name_len(s.drop_first())
    } else {
        0
    }
}

/// `s` with every non-overlapping occurrence of `from`, left to right, replaced by `to`.
pub open spec fn replaced(s: Seq<char>, from: Seq<char>, to: Seq<char>) -> Seq<char>
    decreases s.len(),
{
    if from.len() == 0 || s.len() < from.len() {
        s
    } else if s.subrange(0, from.len() as int) == from {
        to + replaced(s.subrange(from.len() as int, s.len() as int), from, to)
    } else {
        seq![s[0]] + replaced(s.drop_first(), from, to)
    }
}

/// Every `$NAME` (longest run of name characters) replaced by the variable's value.
pub open spec fn subst_plain(s: Seq<char>, env: Env) -> Seq<char>
    decreases s.len(),
{
    if s.len() == 0 {
        s
    } else if s[0] == '$' && 0 < name_len(s.drop_first()) && name_len(s.drop_first()) < s.len() {
        let n = name_len(s.drop_first()) as int;
        env.value(s.subrange(1, n + 1)) + subst_plain(s.subrange(n + 1, s.len() as int), env)
    } else {
        seq![s[0]] + subst_plain(s.drop_first(), env)
    }
}

/// Whether `s` starts with `${NAME}`; the name then has `name_len(s.subrange(2, _))` characters.
pub open spec fn starts_braced(s: Seq<char>) -> bool {
    &&& s.len() >= 2
    &&& s[0] == '$'
    &&& s[1] == '{'
    &&& 0 < name_len(s.subrange(2, s.len() as int))
    &&& name_len(s.subrange(2, s.len() as int)) + 2 < s.len()
    &&& s[name_len(s.subrange(2, s.len() as int)) + 2int] == '}'
}

/// Every `${NAME}` replaced by the variable's value.
pub open spec fn subst_braced(s: Seq<char>, env: Env) -> Seq<char>
    decreases s.len(),
{
    if s.len() == 0 {
        s
    } else if starts_braced(s) {
        let n = name_len(s.subrange(2, s.len() as int)) as int;
        env.value(s.subrange(2, n + 2)) + subst_braced(s.subrange(n + 3, s.len() as int), env)
    } else {
        seq![s[0]] + subst_braced(s.drop_first(), env)
    }
}

pub open spec fn digit(d: nat) -> char {
    seq!['0', '1', '2', '3', '4', '5', '6', '7', '8', '9'][d as int % 10]
}

/// Decimal digits of `n`, without leading zeros.
pub open spec fn digits(n: nat) -> Seq<char>
    decreases n,
{
    if n < 10 {
        seq![digit(n)]
    } else {
        digits(n / 10).push(digit(n % 10))
    }
}

/// Decimal text of `n`, with a leading `-` when it is negative.
pub open spec fn decimal(n: int) -> Seq<char> {
    if n < 0 {
        seq!['-'] + digits((-n) as nat)
    } else {
        digits(n as nat)
    }
}

pub open spec fn plain_var_pattern() -> Seq<char> {
    "\\$(?P<env>[a-zA-Z_]+)"@
}

pub open spec fn braced_var_pattern() -> Seq<char> {
    "\\$\\{(?P<env>[a-zA-Z_]+)\\}"@
}

/// The expansion of `s` against runtime `rt`, pass after pass.
pub open spec fn expansion(s: Seq<char>, rt: Runtime) -> Seq<char> {
    let s1 = replaced(s, "$?"@, decimal(rt.exit_status as int));
    let s2 = replaced(s1, "$#"@, decimal(rt.args@.len() as int));
    let s3 = replaced(s2, "$0"@, rt.name@);
    let s4 = subst_plain(s3, rt.env);
    let s5 = subst_braced(s4, rt.env);
    replaced(s5, "~"@, rt.env.value("HOME"@))
}

/// Relies on str::replace: every non-overlapping match of a non-empty `from`,
/// scanned left to right, is replaced by `to`.
#[verifier::external_body]
fn replace_str(s: &str, from: &str, to: &str) -> (r: String)
    requires
        from@.len() > 0,
    ensures
        r@ == replaced(s@, from@, to@),
{
    s.replace(from, to)
}

/// Relies on the `Display` impl of `i32`: decimal digits, `-` first when negative.
#[verifier::external_body]
fn i32_text(n: i32) -> (r: String)
    ensures
        r@ == decimal(n as int),
{
    n.to_string()
}

/// Relies on the `Display` impl of `usize`: decimal digits.
#[verifier::external_body]
fn usize_text(n: usize) -> (r: String)
    ensures
        r@ == decimal(n as int),
{
    n.to_string()
}

/// Relies on regex::Regex::new and regex::Regex::replace_all: the pattern compiles, and
/// each leftmost-first, non-overlapping match (greedy `+`) is replaced by the value of
/// the variable that its `env` group names.
#[verifier::external_body]
fn replace_vars(pattern: &str, s: &str, env: &Env) -> (r: String)
    requires
        pattern@ == plain_var_pattern() || pattern@ == braced_var_pattern(),
    ensures
        pattern@ == plain_var_pattern() ==> r@ == subst_plain(s@, *env),
        pattern@ == braced_var_pattern() ==> r@ == subst_braced(s@, *env),
{
    let re = regex::Regex::new(pattern).unwrap();
    re.replace_all(s, |caps: &regex::Captures| env.get_or_empty(&caps["env"].to_string()))
        .into_owned()
}

/// Performs environment substitution on a word.
pub fn envsubst(rt: &Runtime, arg: &str) -> (r: String)
    ensures
        r@ == expansion(arg@, *rt),
{
    proof {
        reveal_strlit("$?");
        reveal_strlit("$#");
        reveal_strlit("$0");
        reveal_strlit("~");
    }
    let status = i32_text(rt.exit_status);
    let s1 = replace_str(arg, "$?", status.as_str());
    let count = usize_text(rt.args.len());
    let s2 = replace_str(s1.as_str(), "$#", count.as_str());
    let s3 = replace_str(s2.as_str(), "$0", rt.name.as_str());
    let s4 = replace_vars("\\$(?P<env>[a-zA-Z_]+)", s3.as_str(), &rt.env);
    let s5 = replace_vars("\\$\\{(?P<env>[a-zA-Z_]+)\\}", s4.as_str(), &rt.env);
    let home = rt.env.get_or_empty(&String::from_str("HOME"));
    replace_str(s5.as_str(), "~", home.as_str())
}

} // verus!
