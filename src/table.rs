//! Tables keyed by name: the environment and the function table.

use vstd::prelude::*;

verus! {

/// The value bound to `name`: the first entry whose key is `name`.
pub open spec fn lookup<V>(entries: Seq<(String, V)>, name: Seq<char>) -> Option<V>
    decreases entries.len(),
{
    if entries.len() == 0 {
        None
    } else if entries[0].0@ == name {
        Some(entries[0].1)
    } else {
        lookup(entries.drop_first(), name)
    }
}

/// Index of the first entry whose key is `name`.
pub open spec fn first_index<V>(entries: Seq<(String, V)>, name: Seq<char>, i: int) -> bool {
    &&& 0 <= i < entries.len()
    &&& entries[i].0@ == name
    &&& forall|j: int| 0 <= j < i ==> #[trigger] entries[j].0@ != name
}

proof fn lemma_lookup_at<V>(entries: Seq<(String, V)>, name: Seq<char>, i: int)
    requires
        first_index(entries, name, i),
    ensures
        lookup(entries, name) == Some(entries[i].1),
    decreases i,
{
    if i > 0 {
        assert(entries[0].0@ != name);
        let rest = entries.drop_first();
        assert forall|j: int| 0 <= j < i - 1 implies #[trigger] rest[j].0@ != name by {
            assert(entries[j + 1].0@ != name);
        }
        lemma_lookup_at(rest, name, i - 1);
    }
}

proof fn lemma_lookup_absent<V>(entries: Seq<(String, V)>, name: Seq<char>)
    requires
        forall|j: int| 0 <= j < entries.len() ==> #[trigger] entries[j].0@ != name,
    ensures
        lookup(entries, name) is None,
    decreases entries.len(),
{
    if entries.len() > 0 {
        let rest = entries.drop_first();
        assert forall|j: int| 0 <= j < rest.len() implies #[trigger] rest[j].0@ != name by {
            assert(entries[j + 1].0@ != name);
        }
        lemma_lookup_absent(rest, name);
    }
}

proof fn lemma_lookup_push<V>(entries: Seq<(String, V)>, k: String, v: V, name: Seq<char>)
    requires
        lookup(entries, k@) is None,
    ensures
        lookup(entries.push((k, v)), name) == if name == k@ {
            Some(v)
        } else {
            lookup(entries, name)
        },
    decreases entries.len(),
{
    let e2 = entries.push((k, v));
    if entries.len() == 0 {
        assert(e2.drop_first() =~= Seq::<(String, V)>::empty());
    } else {
        assert(e2.drop_first() =~= entries.drop_first().push((k, v)));
        lemma_lookup_push(entries.drop_first(), k, v, name);
    }
}

proof fn lemma_lookup_update<V>(entries: Seq<(String, V)>, i: int, k: String, v: V, name: Seq<char>)
    requires
        first_index(entries, k@, i),
    ensures
        lookup(entries.update(i, (k, v)), name) == if name == k@ {
            Some(v)
        } else {
            lookup(entries, name)
        },
    decreases i,
{
    let e2 = entries.update(i, (k, v));
    if i > 0 {
        let rest = entries.drop_first();
        assert(e2.drop_first() =~= rest.update(i - 1, (k, v)));
        assert forall|j: int| 0 <= j < i - 1 implies #[trigger] rest[j].0@ != k@ by {
            assert(entries[j + 1].0@ != k@);
        }
        lemma_lookup_update(rest, i - 1, k, v, name);
    } else {
        assert(e2.drop_first() =~= entries.drop_first());
    }
}

/// Position of the first entry whose key is `name`, if any.
pub fn find_key<V>(entries: &Vec<(String, V)>, name: &String) -> (r: Option<usize>)
    ensures
        match r {
            Some(i) => first_index(entries@, name@, i as int) && lookup(entries@, name@) == Some(
                entries@[i as int].1,
            ),
            None => lookup(entries@, name@) is None,
        },
{
    let mut i: usize = 0;
    while i < entries.len()
        invariant
            i <= entries.len(),
            forall|j: int| 0 <= j < i ==> #[trigger] entries@[j].0@ != name@,
        decreases entries.len() - i,
    {
        if entries[i].0 == *name {
            proof {
                lemma_lookup_at(entries@, name@, i as int);
            }
            return Some(i);
        }
        i = i + 1;
    }
    proof {
        lemma_lookup_absent(entries@, name@);
    }
    None
}

/// Binds `name` to `value`, replacing the first binding of `name` if there is one.
pub fn bind<V>(entries: &mut Vec<(String, V)>, name: String, value: V)
    ensures
        forall|n: Seq<char>|
            #[trigger] lookup(final(entries)@, n) == if n == name@ {
                Some(value)
            } else {
                lookup(old(entries)@, n)
            },
{
    let ghost name_v = name@;
    match find_key(entries, &name) {
        Some(i) => {
            let ghost before = entries@;
            entries.remove(i);
            entries.insert(i, (name, value));
            proof {
                assert(entries@ =~= before.update(i as int, (name, value)));
                assert forall|n: Seq<char>|
                    #[trigger] lookup(entries@, n) == if n == name_v {
                        Some(value)
                    } else {
                        lookup(before, n)
                    } by {
                    lemma_lookup_update(before, i as int, name, value, n);
                }
            }
        },
        None => {
            let ghost before = entries@;
            entries.push((name, value));
            proof {
                assert forall|n: Seq<char>|
                    #[trigger] lookup(entries@, n) == if n == name_v {
                        Some(value)
                    } else {
                        lookup(before, n)
                    } by {
                    lemma_lookup_push(before, name, value, n);
                }
            }
        },
    }
}

} // verus!
