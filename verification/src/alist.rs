//! Association-list reasoning.
//!
//! The registry stores its two tables as vectors of keyed entries with
//! pairwise-distinct keys. These spec functions and lemmas characterise
//! lookup over such a sequence, so that every table operation can be
//! specified by how it changes the lookup function.

use vstd::prelude::*;

verus! {

/// No two entries share a key.
pub open spec fn distinct_keys<K, V>(s: Seq<(K, V)>) -> bool {
    forall|i: int, j: int| 0 <= i < j < s.len() ==> s[i].0 != s[j].0
}

/// The value stored under `k`, if any. Scans from the back; under
/// [`distinct_keys`] the direction is irrelevant.
pub open spec fn get<K, V>(s: Seq<(K, V)>, k: K) -> Option<V>
    decreases s.len(),
{
    if s.len() == 0 {
        None
    } else if s.last().0 == k {
        Some(s.last().1)
    } else {
        get(s.drop_last(), k)
    }
}

/// A key is present exactly when some entry carries it.
pub proof fn lemma_get_some_index<K, V>(s: Seq<(K, V)>, k: K)
    ensures
        get(s, k) is Some <==> exists|i: int| 0 <= i < s.len() && s[i].0 == k,
    decreases s.len(),
{
    if s.len() > 0 {
        lemma_get_some_index(s.drop_last(), k);
        if s.last().0 == k {
            assert(s[s.len() - 1].0 == k);
        } else {
            if get(s, k) is Some {
                let i = choose|i: int| 0 <= i < s.drop_last().len() && s.drop_last()[i].0 == k;
                assert(s[i].0 == k);
            }
            if exists|i: int| 0 <= i < s.len() && s[i].0 == k {
                let i = choose|i: int| 0 <= i < s.len() && s[i].0 == k;
                assert(i < s.len() - 1);
                assert(s.drop_last()[i].0 == k);
            }
        }
    }
}

/// With distinct keys, the entry found at any index is the looked-up value.
pub proof fn lemma_get_index<K, V>(s: Seq<(K, V)>, k: K, i: int)
    requires
        distinct_keys(s),
        0 <= i < s.len(),
        s[i].0 == k,
    ensures
        get(s, k) == Some(s[i].1),
    decreases s.len(),
{
    if i == s.len() - 1 {
    } else {
        assert(s.last().0 != k);
        assert(distinct_keys(s.drop_last())) by {
            assert(forall|x: int, y: int|
                0 <= x < y < s.drop_last().len() ==> s.drop_last()[x].0 != s.drop_last()[y].0);
        }
        assert(s.drop_last()[i].0 == k);
        lemma_get_index(s.drop_last(), k, i);
    }
}

/// Both characterisations at once, for every key of a distinct-key list.
pub proof fn lemma_get_props<K, V>(s: Seq<(K, V)>)
    requires
        distinct_keys(s),
    ensures
        forall|k: K| #[trigger] get(s, k) is Some <==> exists|i: int| 0 <= i < s.len() && s[i].0 == k,
        forall|i: int| 0 <= i < s.len() ==> get(s, #[trigger] s[i].0) == Some(s[i].1),
{
    assert forall|k: K| #[trigger] get(s, k) is Some
        implies exists|i: int| 0 <= i < s.len() && s[i].0 == k by {
        lemma_get_some_index(s, k);
    }
    assert forall|k: K| exists|i: int| 0 <= i < s.len() && s[i].0 == k
        implies #[trigger] get(s, k) is Some by {
        lemma_get_some_index(s, k);
    }
    assert forall|i: int| 0 <= i < s.len() implies get(s, #[trigger] s[i].0) == Some(s[i].1) by {
        lemma_get_index(s, s[i].0, i);
    }
}

/// The entry list after a swap-remove of index `i`: the last entry moves
/// into the hole and the tail shrinks by one.
pub open spec fn swap_remove_kv<K, V>(s: Seq<(K, V)>, i: int) -> Seq<(K, V)> {
    s.update(i, s.last()).drop_last()
}

/// Replacing the value stored at index `i` changes exactly that key's
/// lookup.
pub proof fn lemma_get_update<K, V>(s: Seq<(K, V)>, i: int, v2: V)
    requires
        distinct_keys(s),
        0 <= i < s.len(),
    ensures
        distinct_keys(s.update(i, (s[i].0, v2))),
        get(s.update(i, (s[i].0, v2)), s[i].0) == Some(v2),
        forall|k: K| k != s[i].0 ==> get(s.update(i, (s[i].0, v2)), k) == get(s, k),
{
    let t = s.update(i, (s[i].0, v2));
    assert forall|x: int, y: int| 0 <= x < y < t.len() implies t[x].0 != t[y].0 by {
        assert(t[x].0 == s[x].0 && t[y].0 == s[y].0);
    }
    lemma_get_props(s);
    lemma_get_props(t);
    assert(get(t, t[i].0) == Some(t[i].1));
    assert forall|k: K| k != s[i].0 implies get(t, k) == get(s, k) by {
        if get(t, k) is Some {
            let j = choose|j: int| 0 <= j < t.len() && t[j].0 == k;
            assert(t[j] == s[j]);
            assert(get(s, k) == Some(s[j].1));
            assert(get(t, k) == Some(t[j].1));
        } else if get(s, k) is Some {
            let j = choose|j: int| 0 <= j < s.len() && s[j].0 == k;
            assert(t[j].0 == k);
        }
    }
}

/// Appending a fresh entry adds exactly that key's lookup.
pub proof fn lemma_get_push<K, V>(s: Seq<(K, V)>, k: K, v: V)
    ensures
        get(s.push((k, v)), k) == Some(v),
        forall|k2: K| k2 != k ==> get(s.push((k, v)), k2) == get(s, k2),
        distinct_keys(s) && (forall|i: int| 0 <= i < s.len() ==> s[i].0 != k)
            ==> distinct_keys(s.push((k, v))),
{
    let t = s.push((k, v));
    assert(t.last() == (k, v));
    assert(t.drop_last() =~= s);
    assert(get(t, k) == Some(v));
    assert forall|k2: K| k2 != k implies get(t, k2) == get(s, k2) by {
        assert(get(t, k2) == get(t.drop_last(), k2));
    }
    if distinct_keys(s) && (forall|i: int| 0 <= i < s.len() ==> s[i].0 != k) {
        assert forall|x: int, y: int| 0 <= x < y < t.len() implies t[x].0 != t[y].0 by {
            if y == s.len() {
                assert(t[x].0 == s[x].0 && t[y].0 == k);
            } else {
                assert(t[x].0 == s[x].0 && t[y].0 == s[y].0);
            }
        }
    }
}

/// Swap-removing the entry at index `i` removes exactly that key's lookup.
pub proof fn lemma_get_swap_remove<K, V>(s: Seq<(K, V)>, i: int)
    requires
        distinct_keys(s),
        0 <= i < s.len(),
    ensures
        distinct_keys(swap_remove_kv(s, i)),
        get(swap_remove_kv(s, i), s[i].0) is None,
        forall|k: K| k != s[i].0 ==> get(swap_remove_kv(s, i), k) == get(s, k),
{
    let t = swap_remove_kv(s, i);
    let n = s.len() - 1;
    assert(t.len() == n);
    assert forall|j: int| 0 <= j < n implies t[j] == (if j == i { s[n] } else { s[j] }) by {}
    assert forall|x: int, y: int| 0 <= x < y < n implies t[x].0 != t[y].0 by {
        if x == i {
            assert(t[x] == s[n] && t[y] == s[y]);
        } else if y == i {
            assert(t[x] == s[x] && t[y] == s[n]);
        } else {
            assert(t[x] == s[x] && t[y] == s[y]);
        }
    }
    lemma_get_props(s);
    lemma_get_props(t);
    if get(t, s[i].0) is Some {
        let j = choose|j: int| 0 <= j < t.len() && t[j].0 == s[i].0;
        if j == i {
            assert(t[j] == s[n]);
            assert(s[n].0 == s[i].0);
            assert(i == n);
            assert(false);
        } else {
            assert(t[j] == s[j]);
            assert(false);
        }
    }
    assert forall|k: K| k != s[i].0 implies get(t, k) == get(s, k) by {
        if get(t, k) is Some {
            let j = choose|j: int| 0 <= j < t.len() && t[j].0 == k;
            if j == i {
                assert(t[j] == s[n]);
                assert(get(s, k) == Some(s[n].1));
            } else {
                assert(t[j] == s[j]);
                assert(get(s, k) == Some(s[j].1));
            }
            assert(get(t, k) == Some(t[j].1));
        } else if get(s, k) is Some {
            let j = choose|j: int| 0 <= j < s.len() && s[j].0 == k;
            if j == i {
                assert(false);
            } else if j == n {
                if i < n {
                    assert(t[i].0 == k);
                    assert(get(t, k) is Some);
                }
                assert(false);
            } else {
                assert(t[j].0 == k);
                assert(false);
            }
        }
    }
}

} // verus!
