//! Association lists: the model of the maps of this library.
use vstd::prelude::*;

verus! {

/// Whether some entry of `t` has key `k`.
pub open spec fn has_key<K, V>(t: Seq<(K, V)>, k: K) -> bool {
    exists|i: int| 0 <= i < t.len() && t[i].0 == k
}

/// Whether no two entries of `t` share a key.
pub open spec fn keys_unique<K, V>(t: Seq<(K, V)>) -> bool {
    forall|i: int, j: int| 0 <= i < t.len() && 0 <= j < t.len() && i != j ==> t[i].0 != t[j].0
}

/// The position of key `k` in `t`.
pub open spec fn key_index<K, V>(t: Seq<(K, V)>, k: K) -> int {
    choose|i: int| 0 <= i < t.len() && t[i].0 == k
}

/// The value of key `k` in `t`.
pub open spec fn assoc_get<K, V>(t: Seq<(K, V)>, k: K) -> Option<V> {
    if has_key(t, k) {
        Some(t[key_index(t, k)].1)
    } else {
        None
    }
}

/// `t` where key `k` has value `v`: in place of its entry where it has one,
/// else as a new last entry.
pub open spec fn assoc_set<K, V>(t: Seq<(K, V)>, k: K, v: V) -> Seq<(K, V)> {
    if has_key(t, k) {
        t.update(key_index(t, k), (k, v))
    } else {
        t.push((k, v))
    }
}

/// With unique keys, the entry that holds a key is the one `key_index` picks.
pub proof fn lemma_key_index_unique<K, V>(t: Seq<(K, V)>, k: K, i: int)
    requires
        keys_unique(t),
        0 <= i < t.len(),
        t[i].0 == k,
    ensures
        has_key(t, k),
        key_index(t, k) == i,
{
    assert(has_key(t, k));
    let j = key_index(t, k);
    assert(t[j].0 == k);
}

/// Setting a key keeps the keys unique.
pub proof fn lemma_assoc_set_unique<K, V>(t: Seq<(K, V)>, k: K, v: V)
    requires
        keys_unique(t),
    ensures
        keys_unique(assoc_set(t, k, v)),
        has_key(assoc_set(t, k, v), k),
        forall|q: K| q != k ==> has_key(assoc_set(t, k, v), q) == has_key(t, q),
{
    let r = assoc_set(t, k, v);
    if has_key(t, k) {
        let i = key_index(t, k);
        assert(r[i].0 == k);
        assert forall|q: K| q != k implies has_key(r, q) == has_key(t, q) by {
            if has_key(t, q) {
                let j = choose|j: int| 0 <= j < t.len() && t[j].0 == q;
                assert(r[j].0 == q);
            }
            if has_key(r, q) {
                let j = choose|j: int| 0 <= j < r.len() && r[j].0 == q;
                assert(t[j].0 == q);
            }
        }
    } else {
        assert(r[t.len() as int].0 == k);
        assert forall|q: K| q != k implies has_key(r, q) == has_key(t, q) by {
            if has_key(t, q) {
                let j = choose|j: int| 0 <= j < t.len() && t[j].0 == q;
                assert(r[j].0 == q);
            }
            if has_key(r, q) {
                let j = choose|j: int| 0 <= j < r.len() && r[j].0 == q;
                assert(j < t.len());
                assert(t[j].0 == q);
            }
        }
    }
}

/// After a key is set, it has the new value and every other key keeps its own.
pub proof fn lemma_assoc_get_set<K, V>(t: Seq<(K, V)>, k: K, v: V, q: K)
    requires
        keys_unique(t),
    ensures
        assoc_get(assoc_set(t, k, v), q) == if q == k {
            Some(v)
        } else {
            assoc_get(t, q)
        },
{
    lemma_assoc_set_unique(t, k, v);
    let r = assoc_set(t, k, v);
    if q == k {
        if has_key(t, k) {
            lemma_key_index_unique(r, k, key_index(t, k));
        } else {
            lemma_key_index_unique(r, k, t.len() as int);
        }
    } else if has_key(t, q) {
        let j = key_index(t, q);
        assert(r[j] == t[j]);
        lemma_key_index_unique(r, q, j);
    }
}

} // verus!
