//! Association sequences: ordered `(key, value)` pairs looked up by key.
//!
//! These spec functions are the ghost model shared by style definitions
//! (attribute name to attribute value) and the style registry (tag name to
//! style definition). Well-formed sequences bind each key at most once;
//! `assoc_set` keeps a binding's position when it overwrites, so the model
//! pins the concrete layout of the executable types, not just their map
//! reading.

use vstd::prelude::*;

verus! {

/// The value bound to `k`, reading the first occurrence.
pub open spec fn assoc_get<V>(entries: Seq<(Seq<char>, V)>, k: Seq<char>) -> Option<V>
    decreases entries.len(),
{
    if entries.len() == 0 {
        None
    } else if entries[0].0 == k {
        Some(entries[0].1)
    } else {
        assoc_get(entries.drop_first(), k)
    }
}

/// `entries` with `k` bound to `v`: overwritten in place where `k` already
/// occurs, appended at the end otherwise.
pub open spec fn assoc_set<V>(entries: Seq<(Seq<char>, V)>, k: Seq<char>, v: V) -> Seq<
    (Seq<char>, V),
>
    decreases entries.len(),
{
    if entries.len() == 0 {
        seq![(k, v)]
    } else if entries[0].0 == k {
        seq![(k, v)] + entries.drop_first()
    } else {
        seq![entries[0]] + assoc_set(entries.drop_first(), k, v)
    }
}

/// `entries` without the first binding for `k`, if any.
pub open spec fn assoc_remove<V>(entries: Seq<(Seq<char>, V)>, k: Seq<char>) -> Seq<
    (Seq<char>, V),
>
    decreases entries.len(),
{
    if entries.len() == 0 {
        entries
    } else if entries[0].0 == k {
        entries.drop_first()
    } else {
        seq![entries[0]] + assoc_remove(entries.drop_first(), k)
    }
}

/// Each key is bound at most once.
pub open spec fn assoc_wf<V>(entries: Seq<(Seq<char>, V)>) -> bool {
    forall|i: int, j: int| 0 <= i < j < entries.len() ==> entries[i].0 != entries[j].0
}

/// A key is unbound exactly when it occurs nowhere.
pub proof fn lemma_get_none<V>(entries: Seq<(Seq<char>, V)>, k: Seq<char>)
    ensures
        (assoc_get(entries, k) is None) <==> (forall|i: int|
            0 <= i < entries.len() ==> entries[i].0 != k),
    decreases entries.len(),
{
    if entries.len() == 0 {
    } else if entries[0].0 == k {
        assert(!(forall|i: int| 0 <= i < entries.len() ==> entries[i].0 != k)) by {
            assert(0 <= 0 < entries.len() && entries[0].0 == k);
        }
    } else {
        lemma_get_none(entries.drop_first(), k);
        if assoc_get(entries, k) is None {
            assert forall|i: int| 0 <= i < entries.len() implies entries[i].0 != k by {
                if i > 0 {
                    assert(entries.drop_first()[i - 1] == entries[i]);
                }
            }
        } else {
            let i0 = choose|i0: int|
                !(0 <= i0 < entries.drop_first().len() ==> entries.drop_first()[i0].0 != k);
            assert(entries[i0 + 1].0 == k);
        }
    }
}

/// Dropping the first entry keeps well-formedness.
pub proof fn lemma_wf_tail<V>(entries: Seq<(Seq<char>, V)>)
    requires
        assoc_wf(entries),
        entries.len() > 0,
    ensures
        assoc_wf(entries.drop_first()),
        assoc_get(entries.drop_first(), entries[0].0) is None,
{
    assert(forall|i: int|
        0 <= i < entries.drop_first().len() ==> entries.drop_first()[i] == entries[i + 1]);
    lemma_get_none(entries.drop_first(), entries[0].0);
}

/// What `assoc_set` binds: `k` to `v`, and every other key as before.
pub proof fn lemma_set_get<V>(entries: Seq<(Seq<char>, V)>, k: Seq<char>, v: V, q: Seq<char>)
    ensures
        assoc_get(assoc_set(entries, k, v), q) == if q == k {
            Some(v)
        } else {
            assoc_get(entries, q)
        },
    decreases entries.len(),
{
    let result = assoc_set(entries, k, v);
    if entries.len() == 0 {
        assert(result[0] == (k, v));
        assert(result.drop_first() =~= Seq::<(Seq<char>, V)>::empty());
        if q == k {
            assert(assoc_get(result, q) == Some(v));
        } else {
            assert(assoc_get(result, q) == assoc_get(result.drop_first(), q));
            assert(assoc_get(result, q) is None);
        }
    } else if entries[0].0 == k {
        assert(result[0] == (k, v));
        assert(result.drop_first() =~= entries.drop_first());
        if q == k {
            assert(assoc_get(result, q) == Some(v));
        } else {
            assert(assoc_get(result, q) == assoc_get(entries.drop_first(), q));
            assert(assoc_get(entries, q) == assoc_get(entries.drop_first(), q));
        }
    } else {
        assert(result[0] == entries[0]);
        assert(result.drop_first() =~= assoc_set(entries.drop_first(), k, v));
        lemma_set_get(entries.drop_first(), k, v, q);
        if q == entries[0].0 {
            assert(assoc_get(result, q) == Some(entries[0].1));
            assert(assoc_get(entries, q) == Some(entries[0].1));
        } else {
            assert(assoc_get(result, q) == assoc_get(assoc_set(entries.drop_first(), k, v), q));
        }
    }
}

/// Every key of `assoc_set(entries, k, v)` is `k` or a key of `entries`.
proof fn lemma_set_keys<V>(entries: Seq<(Seq<char>, V)>, k: Seq<char>, v: V)
    ensures
        forall|i: int|
            0 <= i < assoc_set(entries, k, v).len() ==> (assoc_set(entries, k, v)[i].0 == k
                || (exists|j: int|
                0 <= j < entries.len() && entries[j].0 == #[trigger] assoc_set(
                    entries,
                    k,
                    v,
                )[i].0)),
    decreases entries.len(),
{
    let result = assoc_set(entries, k, v);
    if entries.len() == 0 {
    } else if entries[0].0 == k {
        assert forall|i: int| 0 <= i < result.len() && #[trigger] result[i].0 != k implies (exists|j: int|
            0 <= j < entries.len() && entries[j].0 == result[i].0) by {
            assert(result[i] == entries[i]);
        }
    } else {
        lemma_set_keys(entries.drop_first(), k, v);
        let tail_result = assoc_set(entries.drop_first(), k, v);
        assert forall|i: int| 0 <= i < result.len() && #[trigger] result[i].0 != k implies (exists|j: int|
            0 <= j < entries.len() && entries[j].0 == result[i].0) by {
            if i == 0 {
                assert(entries[0].0 == result[0].0);
            } else {
                assert(result[i] == tail_result[i - 1]);
                let j0 = choose|j0: int|
                    0 <= j0 < entries.drop_first().len() && entries.drop_first()[j0].0
                        == tail_result[i - 1].0;
                assert(entries[j0 + 1].0 == result[i].0);
            }
        }
    }
}

/// `assoc_set` keeps well-formedness.
pub proof fn lemma_set_wf<V>(entries: Seq<(Seq<char>, V)>, k: Seq<char>, v: V)
    requires
        assoc_wf(entries),
    ensures
        assoc_wf(assoc_set(entries, k, v)),
    decreases entries.len(),
{
    let result = assoc_set(entries, k, v);
    if entries.len() == 0 {
    } else if entries[0].0 == k {
        assert forall|i: int, j: int| 0 <= i < j < result.len() implies result[i].0
            != result[j].0 by {
            assert(result[j] == entries[j]);
            if i > 0 {
                assert(result[i] == entries[i]);
            }
        }
    } else {
        lemma_wf_tail(entries);
        lemma_set_wf(entries.drop_first(), k, v);
        lemma_set_keys(entries.drop_first(), k, v);
        let tail_result = assoc_set(entries.drop_first(), k, v);
        assert forall|i: int, j: int| 0 <= i < j < result.len() implies result[i].0
            != result[j].0 by {
            assert(result[j] == tail_result[j - 1]);
            if i == 0 {
                if tail_result[j - 1].0 == k {
                } else {
                    let j0 = choose|j0: int|
                        0 <= j0 < entries.drop_first().len() && entries.drop_first()[j0].0
                            == tail_result[j - 1].0;
                    assert(entries[0].0 != entries[j0 + 1].0);
                }
            } else {
                assert(result[i] == tail_result[i - 1]);
            }
        }
    }
}

/// What `assoc_remove` binds: nothing for `k`, every other key as before.
pub proof fn lemma_remove_get<V>(entries: Seq<(Seq<char>, V)>, k: Seq<char>, q: Seq<char>)
    requires
        assoc_wf(entries),
    ensures
        assoc_get(assoc_remove(entries, k), q) == if q == k {
            None::<V>
        } else {
            assoc_get(entries, q)
        },
    decreases entries.len(),
{
    let result = assoc_remove(entries, k);
    if entries.len() == 0 {
    } else if entries[0].0 == k {
        lemma_wf_tail(entries);
    } else {
        lemma_wf_tail(entries);
        lemma_remove_get(entries.drop_first(), k, q);
        assert(result[0] == entries[0]);
        assert(result.drop_first() =~= assoc_remove(entries.drop_first(), k));
    }
}

/// Every key of `assoc_remove(entries, k)` is a key of `entries`.
proof fn lemma_remove_keys<V>(entries: Seq<(Seq<char>, V)>, k: Seq<char>)
    ensures
        forall|i: int|
            0 <= i < assoc_remove(entries, k).len() ==> (exists|j: int|
                0 <= j < entries.len() && entries[j].0 == #[trigger] assoc_remove(
                    entries,
                    k,
                )[i].0),
    decreases entries.len(),
{
    let result = assoc_remove(entries, k);
    if entries.len() == 0 {
    } else if entries[0].0 == k {
        assert forall|i: int| 0 <= i < result.len() implies (exists|j: int|
            0 <= j < entries.len() && entries[j].0 == #[trigger] result[i].0) by {
            assert(result[i] == entries[i + 1]);
        }
    } else {
        lemma_remove_keys(entries.drop_first(), k);
        let tail_result = assoc_remove(entries.drop_first(), k);
        assert forall|i: int| 0 <= i < result.len() implies (exists|j: int|
            0 <= j < entries.len() && entries[j].0 == #[trigger] result[i].0) by {
            if i == 0 {
                assert(entries[0].0 == result[0].0);
            } else {
                assert(result[i] == tail_result[i - 1]);
                let j0 = choose|j0: int|
                    0 <= j0 < entries.drop_first().len() && entries.drop_first()[j0].0
                        == tail_result[i - 1].0;
                assert(entries[j0 + 1].0 == result[i].0);
            }
        }
    }
}

/// `assoc_remove` keeps well-formedness.
pub proof fn lemma_remove_wf<V>(entries: Seq<(Seq<char>, V)>, k: Seq<char>)
    requires
        assoc_wf(entries),
    ensures
        assoc_wf(assoc_remove(entries, k)),
    decreases entries.len(),
{
    let result = assoc_remove(entries, k);
    if entries.len() == 0 {
    } else if entries[0].0 == k {
        lemma_wf_tail(entries);
    } else {
        lemma_wf_tail(entries);
        lemma_remove_wf(entries.drop_first(), k);
        lemma_remove_keys(entries.drop_first(), k);
        let tail_result = assoc_remove(entries.drop_first(), k);
        assert forall|i: int, j: int| 0 <= i < j < result.len() implies result[i].0
            != result[j].0 by {
            assert(result[j] == tail_result[j - 1]);
            if i == 0 {
                let j0 = choose|j0: int|
                    0 <= j0 < entries.drop_first().len() && entries.drop_first()[j0].0
                        == tail_result[j - 1].0;
                assert(entries[0].0 != entries[j0 + 1].0);
            } else {
                assert(result[i] == tail_result[i - 1]);
            }
        }
    }
}

/// A bound value is the value of one of the entries.
pub proof fn lemma_get_index<V>(entries: Seq<(Seq<char>, V)>, k: Seq<char>)
    requires
        assoc_get(entries, k) is Some,
    ensures
        exists|i: int|
            0 <= i < entries.len() && entries[i].0 == k && entries[i].1 == assoc_get(
                entries,
                k,
            ).unwrap(),
    decreases entries.len(),
{
    if entries[0].0 == k {
        assert(0 <= 0 < entries.len() && entries[0].0 == k && entries[0].1 == assoc_get(
            entries,
            k,
        ).unwrap());
    } else {
        lemma_get_index(entries.drop_first(), k);
        let i0 = choose|i0: int|
            0 <= i0 < entries.drop_first().len() && entries.drop_first()[i0].0 == k
                && entries.drop_first()[i0].1 == assoc_get(entries.drop_first(), k).unwrap();
        assert(0 <= i0 + 1 < entries.len() && entries[i0 + 1].0 == k && entries[i0 + 1].1
            == assoc_get(entries, k).unwrap());
    }
}

/// The first match read by a left-to-right scan is what `assoc_get` reads.
pub proof fn lemma_get_first_match<V>(entries: Seq<(Seq<char>, V)>, k: Seq<char>, i: int)
    requires
        0 <= i < entries.len(),
        entries[i].0 == k,
        forall|j: int| 0 <= j < i ==> entries[j].0 != k,
    ensures
        assoc_get(entries, k) == Some(entries[i].1),
    decreases entries.len(),
{
    if i > 0 {
        assert(forall|j: int|
            0 <= j < entries.drop_first().len() ==> entries.drop_first()[j] == entries[j + 1]);
        lemma_get_first_match(entries.drop_first(), k, i - 1);
    }
}

/// Overwriting the first match in place is `assoc_set`.
pub proof fn lemma_set_is_update<V>(entries: Seq<(Seq<char>, V)>, k: Seq<char>, v: V, i: int)
    requires
        0 <= i < entries.len(),
        entries[i].0 == k,
        forall|j: int| 0 <= j < i ==> entries[j].0 != k,
    ensures
        assoc_set(entries, k, v) == entries.update(i, (k, v)),
    decreases entries.len(),
{
    if i == 0 {
        assert(assoc_set(entries, k, v) =~= entries.update(0, (k, v)));
    } else {
        assert(forall|j: int|
            0 <= j < entries.drop_first().len() ==> entries.drop_first()[j] == entries[j + 1]);
        lemma_set_is_update(entries.drop_first(), k, v, i - 1);
        assert(assoc_set(entries, k, v) =~= entries.update(i, (k, v)));
    }
}

/// Appending a key that occurs nowhere is `assoc_set`.
pub proof fn lemma_set_is_push<V>(entries: Seq<(Seq<char>, V)>, k: Seq<char>, v: V)
    requires
        forall|j: int| 0 <= j < entries.len() ==> entries[j].0 != k,
    ensures
        assoc_set(entries, k, v) == entries.push((k, v)),
    decreases entries.len(),
{
    if entries.len() == 0 {
        assert(assoc_set(entries, k, v) =~= entries.push((k, v)));
    } else {
        assert(forall|j: int|
            0 <= j < entries.drop_first().len() ==> entries.drop_first()[j] == entries[j + 1]);
        lemma_set_is_push(entries.drop_first(), k, v);
        assert(assoc_set(entries, k, v) =~= entries.push((k, v)));
    }
}

/// Taking out the first match is `assoc_remove`.
pub proof fn lemma_remove_is_excise<V>(entries: Seq<(Seq<char>, V)>, k: Seq<char>, i: int)
    requires
        0 <= i < entries.len(),
        entries[i].0 == k,
        forall|j: int| 0 <= j < i ==> entries[j].0 != k,
    ensures
        assoc_remove(entries, k) == entries.subrange(0, i) + entries.subrange(
            i + 1,
            entries.len() as int,
        ),
    decreases entries.len(),
{
    if i == 0 {
        assert(assoc_remove(entries, k) =~= entries.subrange(0, 0) + entries.subrange(
            1,
            entries.len() as int,
        ));
    } else {
        assert(forall|j: int|
            0 <= j < entries.drop_first().len() ==> entries.drop_first()[j] == entries[j + 1]);
        lemma_remove_is_excise(entries.drop_first(), k, i - 1);
        assert(assoc_remove(entries, k) =~= entries.subrange(0, i) + entries.subrange(
            i + 1,
            entries.len() as int,
        ));
    }
}

} // verus!
