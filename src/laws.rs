//! Properties of expansion and `cd` that hold for every input.

use vstd::prelude::*;
use crate::ast::{CmdId, Command};
use crate::eval::{cd_target, Output};
use crate::expand::{
    decimal, digits, expansion, is_name_char, name_len, replaced, starts_braced, subst_braced,
    subst_plain,
};
use crate::runtime::{Env, Runtime};

verus! {

/// `c` does not occur in `s`.
pub open spec fn lacks(s: Seq<char>, c: char) -> bool {
    forall|i: int| 0 <= i < s.len() ==> s[i] != c
}

proof fn lemma_replaced_unchanged(s: Seq<char>, from: Seq<char>, to: Seq<char>)
    requires
        from.len() > 0,
        lacks(s, from[0]),
    ensures
        replaced(s, from, to) == s,
    decreases s.len(),
{
    if s.len() >= from.len() {
        assert(s.subrange(0, from.len() as int)[0] == s[0]);
        let rest = s.drop_first();
        assert(lacks(rest, from[0]));
        lemma_replaced_unchanged(rest, from, to);
        assert(seq![s[0]] + rest =~= s);
    }
}

proof fn lemma_plain_unchanged(s: Seq<char>, env: Env)
    requires
        lacks(s, '$'),
    ensures
        subst_plain(s, env) == s,
    decreases s.len(),
{
    if s.len() > 0 {
        let rest = s.drop_first();
        assert(lacks(rest, '$'));
        lemma_plain_unchanged(rest, env);
        assert(seq![s[0]] + rest =~= s);
    }
}

proof fn lemma_braced_unchanged(s: Seq<char>, env: Env)
    requires
        lacks(s, '$'),
    ensures
        subst_braced(s, env) == s,
    decreases s.len(),
{
    if s.len() > 0 {
        let rest = s.drop_first();
        assert(lacks(rest, '$'));
        lemma_braced_unchanged(rest, env);
        assert(seq![s[0]] + rest =~= s);
    }
}

/// A word without `$` and without `~` expands to itself.
pub proof fn lemma_expansion_plain_word(s: Seq<char>, rt: Runtime)
    requires
        lacks(s, '$'),
        lacks(s, '~'),
    ensures
        expansion(s, rt) == s,
{
    reveal_strlit("$?");
    reveal_strlit("$#");
    reveal_strlit("$0");
    reveal_strlit("~");
    lemma_replaced_unchanged(s, "$?"@, crate::expand::decimal(rt.exit_status as int));
    lemma_replaced_unchanged(s, "$#"@, crate::expand::decimal(rt.args@.len() as int));
    lemma_replaced_unchanged(s, "$0"@, rt.name@);
    lemma_plain_unchanged(s, rt.env);
    lemma_braced_unchanged(s, rt.env);
    lemma_replaced_unchanged(s, "~"@, rt.env.value("HOME"@));
}

/// Expanding again changes nothing once an expansion has left no `$` and no `~`.
proof fn lemma_expansion_settled(s: Seq<char>, rt: Runtime)
    requires
        lacks(expansion(s, rt), '$'),
        lacks(expansion(s, rt), '~'),
    ensures
        expansion(expansion(s, rt), rt) == expansion(s, rt),
{
    lemma_expansion_plain_word(expansion(s, rt), rt);
}

/// Every `$` of `s` begins a suffix on which `f` holds.
pub open spec fn dollars_begin(s: Seq<char>, f: spec_fn(Seq<char>) -> bool) -> bool {
    forall|i: int| 0 <= i < s.len() && s[i] == '$' ==> f(#[trigger] s.subrange(i, s.len() as int))
}

/// `t` begins with `$` followed by the character `c`.
pub open spec fn starts2(t: Seq<char>, c: char) -> bool {
    t.len() >= 2 && t[0] == '$' && t[1] == c
}

pub open spec fn named(t: Seq<char>) -> bool {
    t.len() >= 2 && t[0] == '$' && is_name_char(t[1])
}

/// `$NAME` or `${NAME}`.
pub open spec fn var_form(t: Seq<char>) -> bool {
    named(t) || starts_braced(t)
}

/// Any of the forms that expansion replaces.
pub open spec fn expansion_form(t: Seq<char>) -> bool {
    var_form(t) || starts2(t, '?') || starts2(t, '#') || starts2(t, '0')
}

proof fn lemma_dollars_concat(a: Seq<char>, x: Seq<char>, f: spec_fn(Seq<char>) -> bool)
    requires
        lacks(a, '$'),
        dollars_begin(x, f),
    ensures
        dollars_begin(a + x, f),
{
    let s = a + x;
    assert forall|i: int| 0 <= i < s.len() && s[i] == '$' implies f(#[trigger] s.subrange(i, s.len() as int)) by {
        if i < a.len() {
            assert(s[i] == a[i]);
        } else {
            assert(s.subrange(i, s.len() as int) =~= x.subrange(i - a.len(), x.len() as int));
            assert(x[i - a.len()] == s[i]);
        }
    }
}

proof fn lemma_dollars_tail(s: Seq<char>, k: int, f: spec_fn(Seq<char>) -> bool)
    requires
        dollars_begin(s, f),
        0 <= k <= s.len(),
    ensures
        dollars_begin(s.subrange(k, s.len() as int), f),
{
    let t = s.subrange(k, s.len() as int);
    assert forall|i: int| 0 <= i < t.len() && t[i] == '$' implies f(#[trigger] t.subrange(i, t.len() as int)) by {
        assert(t.subrange(i, t.len() as int) =~= s.subrange(i + k, s.len() as int));
        assert(s[i + k] == t[i]);
    }
}

/// `replaced` copies a leading stretch without the first character of the pattern.
proof fn lemma_replaced_prefix(u: Seq<char>, from: Seq<char>, to: Seq<char>, k: int)
    requires
        from.len() > 0,
        0 <= k <= u.len(),
        forall|j: int| 0 <= j < k ==> u[j] != from[0],
    ensures
        replaced(u, from, to) == u.subrange(0, k) + replaced(u.subrange(k, u.len() as int), from, to),
    decreases k,
{
    if k == 0 {
        assert(u.subrange(0, 0) + u.subrange(0, u.len() as int) =~= u);
        assert(u.subrange(0, u.len() as int) =~= u);
    } else {
        if u.len() < from.len() {
            assert(u.subrange(k, u.len() as int).len() < from.len());
            assert(u.subrange(0, k) + u.subrange(k, u.len() as int) =~= u);
        } else {
            assert(u.subrange(0, from.len() as int)[0] == u[0]);
            let r = u.drop_first();
            lemma_replaced_prefix(r, from, to, k - 1);
            assert(r.subrange(k - 1, r.len() as int) =~= u.subrange(k, u.len() as int));
            assert(seq![u[0]] + r.subrange(0, k - 1) =~= u.subrange(0, k));
        }
    }
}

/// `subst_plain` copies a leading stretch without `$`.
proof fn lemma_plain_prefix(u: Seq<char>, env: Env, k: int)
    requires
        0 <= k <= u.len(),
        forall|j: int| 0 <= j < k ==> u[j] != '$',
    ensures
        subst_plain(u, env) == u.subrange(0, k) + subst_plain(u.subrange(k, u.len() as int), env),
    decreases k,
{
    if k == 0 {
        assert(u.subrange(0, u.len() as int) =~= u);
        assert(u.subrange(0, 0) + u =~= u);
    } else {
        let r = u.drop_first();
        lemma_plain_prefix(r, env, k - 1);
        assert(r.subrange(k - 1, r.len() as int) =~= u.subrange(k, u.len() as int));
        assert(seq![u[0]] + r.subrange(0, k - 1) =~= u.subrange(0, k));
    }
}

proof fn lemma_name_len(w: Seq<char>, n: int)
    requires
        0 <= n < w.len(),
        forall|j: int| 0 <= j < n ==> is_name_char(w[j]),
        !is_name_char(w[n]),
    ensures
        name_len(w) == n,
    decreases n,
{
    if n > 0 {
        lemma_name_len(w.drop_first(), n - 1);
    }
}

proof fn lemma_name_len_bound(w: Seq<char>)
    ensures
        name_len(w) <= w.len(),
        forall|j: int| 0 <= j < name_len(w) ==> is_name_char(#[trigger] w[j]),
        name_len(w) < w.len() ==> !is_name_char(w[name_len(w) as int]),
    decreases w.len(),
{
    if w.len() > 0 && is_name_char(w[0]) {
        lemma_name_len_bound(w.drop_first());
        assert forall|j: int| 0 <= j < name_len(w) implies is_name_char(#[trigger] w[j]) by {
            if j > 0 {
                assert(w[j] == w.drop_first()[j - 1]);
            }
        }
    }
}

/// A `${NAME}` form survives when what follows its `$` is copied through its `}`.
proof fn lemma_braced_kept(t: Seq<char>, w: Seq<char>)
    requires
        starts_braced(t),
        w.len() >= name_len(t.subrange(2, t.len() as int)) + 3,
        w[0] == '$',
        w.subrange(0, name_len(t.subrange(2, t.len() as int)) + 3int) == t.subrange(
            0,
            name_len(t.subrange(2, t.len() as int)) + 3int,
        ),
    ensures
        starts_braced(w),
{
    let n = name_len(t.subrange(2, t.len() as int)) as int;
    lemma_name_len_bound(t.subrange(2, t.len() as int));
    let ws = w.subrange(2, w.len() as int);
    assert forall|j: int| 0 <= j < n implies is_name_char(ws[j]) by {
        assert(ws[j] == w[j + 2]);
        assert(w.subrange(0, n + 3)[j + 2] == t.subrange(0, n + 3)[j + 2]);
        assert(t.subrange(2, t.len() as int)[j] == t[j + 2]);
    }
    assert(w.subrange(0, n + 3)[n + 2] == t.subrange(0, n + 3)[n + 2]);
    assert(w.subrange(0, n + 3)[1] == t.subrange(0, n + 3)[1]);
    assert(ws[n] == w[n + 2]);
    lemma_name_len(ws, n);
}

/// The forms still to be expanded after the first `level` literal passes
/// (`$?`, then `$#`, then `$0`).
pub open spec fn form_at(level: int, t: Seq<char>) -> bool {
    ||| var_form(t)
    ||| level <= 2 && starts2(t, '0')
    ||| level <= 1 && starts2(t, '#')
    ||| level <= 0 && starts2(t, '?')
}

/// How many characters of `t` a form check reads.
pub open spec fn form_len(t: Seq<char>) -> int {
    if starts_braced(t) {
        name_len(t.subrange(2, t.len() as int)) + 3int
    } else {
        2
    }
}

pub open spec fn pass_char(level: int) -> char {
    if level == 1 {
        '?'
    } else if level == 2 {
        '#'
    } else {
        '0'
    }
}

proof fn lemma_form_shape(level: int, t: Seq<char>)
    requires
        form_at(level, t),
    ensures
        t[0] == '$',
        2 <= form_len(t) <= t.len(),
        forall|j: int| 1 <= j < form_len(t) ==> #[trigger] t[j] != '$',
{
    if starts_braced(t) {
        let n = name_len(t.subrange(2, t.len() as int)) as int;
        lemma_name_len_bound(t.subrange(2, t.len() as int));
        assert forall|j: int| 1 <= j < form_len(t) implies #[trigger] t[j] != '$' by {
            if 2 <= j < n + 2 {
                assert(t.subrange(2, t.len() as int)[j - 2] == t[j]);
                assert(is_name_char(t.subrange(2, t.len() as int)[j - 2]));
            }
        }
    }
}

proof fn lemma_form_kept(level: int, t: Seq<char>, w: Seq<char>)
    requires
        form_at(level, t),
        w.len() >= form_len(t),
        form_len(t) <= t.len(),
        w.subrange(0, form_len(t)) == t.subrange(0, form_len(t)),
    ensures
        form_at(level, w),
{
    lemma_form_shape(level, t);
    assert(w.subrange(0, form_len(t))[0] == t.subrange(0, form_len(t))[0]);
    assert(w.subrange(0, form_len(t))[1] == t.subrange(0, form_len(t))[1]);
    let fl = form_len(t);
    assert(w.subrange(0, fl)[0] == w[0]);
    assert(t.subrange(0, fl)[0] == t[0]);
    assert(w.subrange(0, fl)[1] == w[1]);
    assert(t.subrange(0, fl)[1] == t[1]);
    if starts_braced(t) {
        lemma_braced_kept(t, w);
    }
}

proof fn lemma_dollars_cons(w: Seq<char>, f: spec_fn(Seq<char>) -> bool)
    requires
        w.len() > 0,
        dollars_begin(w.drop_first(), f),
        w[0] == '$' ==> f(w),
    ensures
        dollars_begin(w, f),
{
    let x = w.drop_first();
    assert forall|i: int| 0 <= i < w.len() && w[i] == '$' implies f(#[trigger] w.subrange(i, w.len() as int)) by {
        if i == 0 {
            assert(w.subrange(0, w.len() as int) =~= w);
        } else {
            assert(w.subrange(i, w.len() as int) =~= x.subrange(i - 1, x.len() as int));
            assert(x[i - 1] == w[i]);
        }
    }
}

/// One literal pass (`$?`, `$#` or `$0`) leaves only the forms of the later passes.
proof fn lemma_pass_literal(s: Seq<char>, level: int, to: Seq<char>)
    requires
        1 <= level <= 3,
        lacks(to, '$'),
        dollars_begin(s, |t: Seq<char>| form_at(level - 1, t)),
    ensures
        dollars_begin(replaced(s, seq!['$', pass_char(level)], to), |t: Seq<char>| form_at(level, t)),
    decreases s.len(),
{
    let from = seq!['$', pass_char(level)];
    let f = |t: Seq<char>| form_at(level, t);
    let r = replaced(s, from, to);
    if s.len() < from.len() {
        assert forall|i: int| 0 <= i < s.len() && s[i] == '$' implies f(#[trigger] s.subrange(i, s.len() as int)) by {
            assert(form_at(level - 1, s.subrange(i, s.len() as int)));
            lemma_form_shape(level - 1, s.subrange(i, s.len() as int));
        }
    } else if s.subrange(0, 2) == from {
        let rest = s.subrange(2, s.len() as int);
        lemma_dollars_tail(s, 2, |t: Seq<char>| form_at(level - 1, t));
        lemma_pass_literal(rest, level, to);
        lemma_dollars_concat(to, replaced(rest, from, to), f);
    } else {
        let u = s.drop_first();
        lemma_dollars_tail(s, 1, |t: Seq<char>| form_at(level - 1, t));
        assert(s.subrange(1, s.len() as int) =~= u);
        lemma_pass_literal(u, level, to);
        let w = seq![s[0]] + replaced(u, from, to);
        assert(w.drop_first() =~= replaced(u, from, to));
        if s[0] == '$' {
            assert(s.subrange(0, s.len() as int) =~= s);
            assert(form_at(level - 1, s));
            assert(!starts2(s, pass_char(level))) by {
                if starts2(s, pass_char(level)) {
                    assert(s.subrange(0, 2) =~= from);
                }
            }
            lemma_form_shape(level - 1, s);
            let k = form_len(s) - 1;
            assert forall|j: int| 0 <= j < k implies u[j] != from[0] by {
                assert(u[j] == s[j + 1]);
            }
            lemma_replaced_prefix(u, from, to, k);
            assert(w.subrange(0, form_len(s)) =~= s.subrange(0, form_len(s)));
            lemma_form_kept(level, s, w);
        }
        lemma_dollars_cons(w, f);
    }
}

/// The `$NAME` pass leaves only `${NAME}` forms.
proof fn lemma_pass_plain(s: Seq<char>, env: Env)
    requires
        forall|n: Seq<char>| lacks(#[trigger] env.value(n), '$'),
        dollars_begin(s, |t: Seq<char>| form_at(3, t)),
    ensures
        dollars_begin(subst_plain(s, env), |t: Seq<char>| starts_braced(t)),
    decreases s.len(),
{
    let f = |t: Seq<char>| starts_braced(t);
    if s.len() == 0 {
    } else if s[0] == '$' && 0 < name_len(s.drop_first()) && name_len(s.drop_first()) < s.len() {
        let n = name_len(s.drop_first()) as int;
        let rest = s.subrange(n + 1, s.len() as int);
        lemma_dollars_tail(s, n + 1, |t: Seq<char>| form_at(3, t));
        lemma_pass_plain(rest, env);
        assert(lacks(env.value(s.subrange(1, n + 1)), '$'));
        lemma_dollars_concat(env.value(s.subrange(1, n + 1)), subst_plain(rest, env), f);
    } else {
        let u = s.drop_first();
        lemma_dollars_tail(s, 1, |t: Seq<char>| form_at(3, t));
        assert(s.subrange(1, s.len() as int) =~= u);
        lemma_pass_plain(u, env);
        let w = seq![s[0]] + subst_plain(u, env);
        assert(w.drop_first() =~= subst_plain(u, env));
        if s[0] == '$' {
            assert(s.subrange(0, s.len() as int) =~= s);
            assert(form_at(3, s));
            if named(s) {
                assert(name_len(u) > 0);
                lemma_name_len_bound(u);
            }
            assert(starts_braced(s));
            lemma_form_shape(3, s);
            let k = form_len(s) - 1;
            assert forall|j: int| 0 <= j < k implies u[j] != '$' by {
                assert(u[j] == s[j + 1]);
            }
            lemma_plain_prefix(u, env, k);
            assert(w.subrange(0, form_len(s)) =~= s.subrange(0, form_len(s)));
            lemma_braced_kept(s, w);
        }
        lemma_dollars_cons(w, f);
    }
}

/// The `${NAME}` pass leaves no `$`.
proof fn lemma_pass_braced(s: Seq<char>, env: Env)
    requires
        forall|n: Seq<char>| lacks(#[trigger] env.value(n), '$'),
        dollars_begin(s, |t: Seq<char>| starts_braced(t)),
    ensures
        lacks(subst_braced(s, env), '$'),
    decreases s.len(),
{
    if s.len() == 0 {
    } else if starts_braced(s) {
        let n = name_len(s.subrange(2, s.len() as int)) as int;
        let rest = s.subrange(n + 3, s.len() as int);
        lemma_dollars_tail(s, n + 3, |t: Seq<char>| starts_braced(t));
        lemma_pass_braced(rest, env);
        assert(lacks(env.value(s.subrange(2, n + 2)), '$'));
        let out = env.value(s.subrange(2, n + 2)) + subst_braced(rest, env);
        assert(lacks(out, '$')) by {
            assert forall|i: int| 0 <= i < out.len() implies out[i] != '$' by {
                if i >= env.value(s.subrange(2, n + 2)).len() {
                    assert(out[i] == subst_braced(rest, env)[i - env.value(s.subrange(2, n + 2)).len()]);
                }
            }
        }
    } else {
        let u = s.drop_first();
        lemma_dollars_tail(s, 1, |t: Seq<char>| starts_braced(t));
        assert(s.subrange(1, s.len() as int) =~= u);
        lemma_pass_braced(u, env);
        if s[0] == '$' {
            assert(s.subrange(0, s.len() as int) =~= s);
        }
        let out = seq![s[0]] + subst_braced(u, env);
        assert(lacks(out, '$')) by {
            assert forall|i: int| 0 <= i < out.len() implies out[i] != '$' by {
                if i > 0 {
                    assert(out[i] == subst_braced(u, env)[i - 1]);
                }
            }
        }
    }
}

/// Replacing a one-character pattern removes that character when the replacement lacks
/// it, and adds no character that neither side held.
proof fn lemma_replaced_lacks(s: Seq<char>, c: char, to: Seq<char>, d: char)
    requires
        lacks(to, d),
        d == c || lacks(s, d),
    ensures
        lacks(replaced(s, seq![c], to), d),
    decreases s.len(),
{
    let from = seq![c];
    if s.len() > 0 {
        if s.subrange(0, 1) == from {
            let rest = s.subrange(1, s.len() as int);
            assert(d == c || lacks(rest, d)) by {
                if d != c {
                    assert forall|i: int| 0 <= i < rest.len() implies rest[i] != d by {
                        assert(rest[i] == s[i + 1]);
                    }
                }
            }
            lemma_replaced_lacks(rest, c, to, d);
            let out = to + replaced(rest, from, to);
            assert forall|i: int| 0 <= i < out.len() implies out[i] != d by {
                if i >= to.len() {
                    assert(out[i] == replaced(rest, from, to)[i - to.len()]);
                }
            }
        } else {
            let u = s.drop_first();
            assert(s[0] != c) by {
                if s[0] == c {
                    assert(s.subrange(0, 1) =~= from);
                }
            }
            assert(d == c || lacks(u, d)) by {
                if d != c {
                    assert forall|i: int| 0 <= i < u.len() implies u[i] != d by {
                        assert(u[i] == s[i + 1]);
                    }
                }
            }
            lemma_replaced_lacks(u, c, to, d);
            let out = seq![s[0]] + replaced(u, from, to);
            assert forall|i: int| 0 <= i < out.len() implies out[i] != d by {
                if i > 0 {
                    assert(out[i] == replaced(u, from, to)[i - 1]);
                }
            }
        }
    }
}

proof fn lemma_digits_lack(n: nat)
    ensures
        lacks(digits(n), '$'),
    decreases n,
{
    if n >= 10 {
        lemma_digits_lack(n / 10);
    }
}

proof fn lemma_decimal_lacks(n: int)
    ensures
        lacks(decimal(n), '$'),
{
    if n < 0 {
        lemma_digits_lack((-n) as nat);
        let out = seq!['-'] + digits((-n) as nat);
        assert forall|i: int| 0 <= i < out.len() implies out[i] != '$' by {
            if i > 0 {
                assert(out[i] == digits((-n) as nat)[i - 1]);
            }
        }
    } else {
        lemma_digits_lack(n as nat);
    }
}

/// Expanding twice equals expanding once when every `$` of the word begins one of the
/// forms that expansion replaces, and no substituted value holds `$` or `~`.
pub proof fn lemma_expansion_idempotent(s: Seq<char>, rt: Runtime)
    requires
        dollars_begin(s, |t: Seq<char>| expansion_form(t)),
        lacks(rt.name@, '$'),
        lacks(rt.name@, '~'),
        forall|n: Seq<char>| lacks(#[trigger] rt.env.value(n), '$') && lacks(rt.env.value(n), '~'),
    ensures
        expansion(expansion(s, rt), rt) == expansion(s, rt),
{
    reveal_strlit("$?");
    reveal_strlit("$#");
    reveal_strlit("$0");
    reveal_strlit("~");
    reveal_strlit("HOME");
    assert("$?"@ =~= seq!['$', pass_char(1)]);
    assert("$#"@ =~= seq!['$', pass_char(2)]);
    assert("$0"@ =~= seq!['$', pass_char(3)]);
    assert("~"@ =~= seq!['~']);
    let d1 = decimal(rt.exit_status as int);
    let d2 = decimal(rt.args@.len() as int);
    lemma_decimal_lacks(rt.exit_status as int);
    lemma_decimal_lacks(rt.args@.len() as int);
    assert forall|i: int| 0 <= i < s.len() && s[i] == '$' implies form_at(0, #[trigger] s.subrange(i, s.len() as int)) by {
        assert(expansion_form(s.subrange(i, s.len() as int)));
    }
    let s1 = replaced(s, "$?"@, d1);
    lemma_pass_literal(s, 1, d1);
    let s2 = replaced(s1, "$#"@, d2);
    lemma_pass_literal(s1, 2, d2);
    let s3 = replaced(s2, "$0"@, rt.name@);
    lemma_pass_literal(s2, 3, rt.name@);
    let s4 = subst_plain(s3, rt.env);
    lemma_pass_plain(s3, rt.env);
    let s5 = subst_braced(s4, rt.env);
    lemma_pass_braced(s4, rt.env);
    let home = rt.env.value("HOME"@);
    assert(lacks(home, '$') && lacks(home, '~'));
    lemma_replaced_lacks(s5, '~', home, '$');
    lemma_replaced_lacks(s5, '~', home, '~');
    lemma_expansion_settled(s, rt);
}

/// The outputs the stages of the pipeline rooted at `cmd` are evaluated with, left to
/// right, when the pipeline is given `out`. By `node_step`, a `Pipeline(l, r)` node hands
/// `l` a piped output and keeps `out` for `r` (`resume` starts `r` on the pipe from `l`);
/// a node of any other kind is one stage.
pub open spec fn stage_outputs(arena: Seq<Command>, cmd: CmdId, out: Output, fuel: nat) -> Seq<Output>
    decreases fuel,
{
    if fuel > 0 && cmd < arena.len() && arena[cmd as int] is Pipeline {
        stage_outputs(arena, arena[cmd as int]->Pipeline_0, Output::Piped, (fuel - 1) as nat).push(out)
    } else {
        seq![out]
    }
}

/// In a pipeline of any length, only the rightmost stage writes to the pipeline's own
/// output; every earlier stage writes into a pipe.
pub proof fn lemma_pipeline_outputs(arena: Seq<Command>, cmd: CmdId, out: Output, fuel: nat)
    ensures
        stage_outputs(arena, cmd, out, fuel).len() >= 1,
        stage_outputs(arena, cmd, out, fuel).last() == out,
        forall|i: int|
            0 <= i < stage_outputs(arena, cmd, out, fuel).len() - 1 ==> #[trigger] stage_outputs(
                arena,
                cmd,
                out,
                fuel,
            )[i] == Output::Piped,
    decreases fuel,
{
    if fuel > 0 && cmd < arena.len() && arena[cmd as int] is Pipeline {
        let l = arena[cmd as int]->Pipeline_0;
        lemma_pipeline_outputs(arena, l, Output::Piped, (fuel - 1) as nat);
        let inner = stage_outputs(arena, l, Output::Piped, (fuel - 1) as nat);
        assert forall|i: int| 0 <= i < inner.len() implies #[trigger] inner[i] == Output::Piped by {
            if i == inner.len() - 1 {
            }
        }
    }
}

/// The working directory after each argument list of `cds` was given to a `cd` that
/// succeeded, starting from `start`. `Evaluator::eval_simple` asks to move to
/// `cd_target(args)`, and `Evaluator::step` moves there once the target is confirmed.
pub open spec fn dir_after(start: Seq<char>, cds: Seq<Seq<Seq<char>>>) -> Seq<char> {
    if cds.len() == 0 {
        start
    } else {
        cd_target(cds.last())
    }
}

/// `cd x; cd y; cd x` leaves the working directory at `x`, wherever it started.
pub proof fn lemma_cd_back(start: Seq<char>, x: Seq<char>, y: Seq<char>)
    ensures
        dir_after(start, seq![seq![x], seq![y], seq![x]]) == x,
{
    let cds = seq![seq![x], seq![y], seq![x]];
    assert(cds.last() == seq![x]);
}

} // verus!
