//! Association sequences: every mapping in this crate is a vector of
//! key/value pairs with pairwise-distinct keys; the cache's own maps keep
//! insertion order, and the commit path emits sorted ones. These are the
//! spec-level notions of lookup and update that the contracts speak in.

use vstd::prelude::*;

verus! {

/// No key occurs twice.
pub open spec fn unique_keys<K, V>(s: Seq<(K, V)>) -> bool {
    forall|i: int, j: int| 0 <= i < j < s.len() ==> s[i].0 != s[j].0
}

/// Whether some entry has key `k`.
pub open spec fn assoc_has<K, V>(s: Seq<(K, V)>, k: K) -> bool {
    exists|i: int| 0 <= i < s.len() && s[i].0 == k
}

/// The index of the entry with key `k` (meaningful when `assoc_has`).
pub open spec fn assoc_idx<K, V>(s: Seq<(K, V)>, k: K) -> int {
    choose|i: int| 0 <= i < s.len() && s[i].0 == k
}

/// The value under key `k`, if any.
pub open spec fn assoc_get<K, V>(s: Seq<(K, V)>, k: K) -> Option<V> {
    if assoc_has(s, k) {
        Some(s[assoc_idx(s, k)].1)
    } else {
        None
    }
}

/// The sequence with `v` under `k`: updated in place where `k` already has an
/// entry, appended otherwise, so the order of first insertion is kept.
pub open spec fn assoc_put<K, V>(s: Seq<(K, V)>, k: K, v: V) -> Seq<(K, V)> {
    if assoc_has(s, k) {
        s.update(assoc_idx(s, k), (k, v))
    } else {
        s.push((k, v))
    }
}

/// With distinct keys, an entry's index is the only place its key occurs.
pub proof fn lemma_assoc_at<K, V>(s: Seq<(K, V)>, i: int)
    requires
        unique_keys(s),
        0 <= i < s.len(),
    ensures
        assoc_has(s, s[i].0),
        assoc_idx(s, s[i].0) == i,
        assoc_get(s, s[i].0) == Some(s[i].1),
{
    assert(assoc_has(s, s[i].0));
    let j = assoc_idx(s, s[i].0);
    assert(0 <= j < s.len() && s[j].0 == s[i].0);
    if i < j {
        assert(s[i].0 != s[j].0);
    } else if j < i {
        assert(s[j].0 != s[i].0);
    }
}

/// How `assoc_put` changes lookups: the written key now maps to the new
/// value, every other key is untouched, and keys stay pairwise distinct.
pub proof fn lemma_assoc_put<K, V>(s: Seq<(K, V)>, k: K, v: V)
    requires
        unique_keys(s),
    ensures
        unique_keys(assoc_put(s, k, v)),
        assoc_get(assoc_put(s, k, v), k) == Some(v),
        forall|k2: K| k2 != k ==> assoc_get(assoc_put(s, k, v), k2) == assoc_get(s, k2),
        assoc_put(s, k, v).len() == if assoc_has(s, k) {
            s.len() as int
        } else {
            (s.len() + 1) as int
        },
{
    let t = assoc_put(s, k, v);
    if assoc_has(s, k) {
        let i = assoc_idx(s, k);
        assert(0 <= i < s.len() && s[i].0 == k);
        assert(forall|m: int| 0 <= m < t.len() && m != i ==> t[m] == s[m]);
        assert(t[i].0 == k);
        assert(unique_keys(t));
        lemma_assoc_at(t, i);
        assert forall|k2: K| k2 != k implies assoc_get(t, k2) == assoc_get(s, k2) by {
            if assoc_has(s, k2) {
                let m = assoc_idx(s, k2);
                assert(0 <= m < s.len() && s[m].0 == k2);
                assert(m != i);
                lemma_assoc_at(t, m);
                lemma_assoc_at(s, m);
            } else if assoc_has(t, k2) {
                let m = assoc_idx(t, k2);
                assert(0 <= m < t.len() && t[m].0 == k2);
                assert(m != i);
                assert(s[m].0 == k2);
            }
        }
    } else {
        assert(forall|m: int| 0 <= m < s.len() ==> t[m] == s[m]);
        assert(t[s.len() as int].0 == k);
        assert(forall|m: int| 0 <= m < s.len() ==> s[m].0 != k);
        assert(unique_keys(t));
        lemma_assoc_at(t, s.len() as int);
        assert forall|k2: K| k2 != k implies assoc_get(t, k2) == assoc_get(s, k2) by {
            if assoc_has(s, k2) {
                let m = assoc_idx(s, k2);
                assert(0 <= m < s.len() && s[m].0 == k2);
                lemma_assoc_at(t, m);
                lemma_assoc_at(s, m);
            } else if assoc_has(t, k2) {
                let m = assoc_idx(t, k2);
                assert(0 <= m < t.len() && t[m].0 == k2);
                assert(m < s.len());
                assert(s[m].0 == k2);
            }
        }
    }
}

/// Inserting a fresh key at any position: lookups of the key find the new
/// value, every other key is untouched, and keys stay pairwise distinct.
pub proof fn lemma_assoc_insert<K, V>(s: Seq<(K, V)>, pos: int, k: K, v: V)
    requires
        unique_keys(s),
        !assoc_has(s, k),
        0 <= pos <= s.len(),
    ensures
        unique_keys(s.insert(pos, (k, v))),
        assoc_get(s.insert(pos, (k, v)), k) == Some(v),
        forall|k2: K| k2 != k ==> assoc_get(s.insert(pos, (k, v)), k2) == assoc_get(s, k2),
        s.insert(pos, (k, v)).len() == s.len() + 1,
{
    let t = s.insert(pos, (k, v));
    assert(forall|m: int| 0 <= m < pos ==> t[m] == s[m]);
    assert(t[pos] == (k, v));
    assert(forall|m: int| pos < m < t.len() ==> t[m] == s[m - 1]);
    assert(forall|m: int| 0 <= m < s.len() ==> s[m].0 != k);
    assert(unique_keys(t)) by {
        assert forall|i: int, j: int| 0 <= i < j < t.len() implies t[i].0 != t[j].0 by {
            if i != pos && j != pos {
                let i2: int = if i < pos { i } else { i - 1 };
                let j2: int = if j < pos { j } else { j - 1 };
                assert(t[i] == s[i2] && t[j] == s[j2]);
                assert(i2 < j2);
            }
        }
    }
    assert(assoc_has(t, k));
    let m = assoc_idx(t, k);
    assert(0 <= m < t.len() && t[m].0 == k);
    if m != pos {
        let m2: int = if m < pos { m } else { m - 1 };
        assert(t[m] == s[m2]);
        assert(false);
    }
    assert forall|k2: K| k2 != k implies assoc_get(t, k2) == assoc_get(s, k2) by {
        if assoc_has(s, k2) {
            let n = assoc_idx(s, k2);
            assert(0 <= n < s.len() && s[n].0 == k2);
            let n2: int = if n < pos {
                n
            } else {
                n + 1
            };
            assert(t[n2] == s[n]);
            assert(assoc_has(t, k2));
            let q = assoc_idx(t, k2);
            assert(0 <= q < t.len() && t[q].0 == k2);
            assert(q != pos);
            let q2: int = if q < pos { q } else { q - 1 };
            assert(t[q] == s[q2]);
            assert(s[q2].0 == k2);
            if q2 != n {
                assert(s[q2].0 != s[n].0 || s[n].0 != s[q2].0);
                if q2 < n {
                    assert(s[q2].0 != s[n].0);
                } else {
                    assert(s[n].0 != s[q2].0);
                }
                assert(false);
            }
            assert(assoc_get(t, k2) == Some(t[q].1));
            assert(t[q].1 == s[n].1);
            lemma_assoc_at(s, n);
        } else {
            if assoc_has(t, k2) {
                let q = assoc_idx(t, k2);
                assert(0 <= q < t.len() && t[q].0 == k2);
                assert(q != pos);
                let q2: int = if q < pos { q } else { q - 1 };
                assert(t[q] == s[q2]);
                assert(s[q2].0 == k2);
                assert(false);
            }
        }
    }
}

} // verus!
