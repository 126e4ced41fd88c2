//! Association lists: key/value sequences with map-like lookup, insertion
//! (replacing an existing key in place) and removal.

use vstd::prelude::*;

verus! {

/// Index of the first entry with key `k`, or -1.
pub open spec fn find_key<K, V>(m: Seq<(K, V)>, k: K) -> int
    decreases m.len(),
{
    if m.len() == 0 {
        -1
    } else if m[0].0 == k {
        0
    } else {
        let r = find_key(m.drop_first(), k);
        if r < 0 {
            -1
        } else {
            r + 1
        }
    }
}

pub open spec fn assoc_get<K, V>(m: Seq<(K, V)>, k: K) -> Option<V> {
    let i = find_key(m, k);
    if i >= 0 {
        Some(m[i].1)
    } else {
        None
    }
}

pub open spec fn assoc_insert<K, V>(m: Seq<(K, V)>, k: K, v: V) -> Seq<(K, V)> {
    let i = find_key(m, k);
    if i >= 0 {
        m.update(i, (k, v))
    } else {
        m.push((k, v))
    }
}

pub open spec fn assoc_remove<K, V>(m: Seq<(K, V)>, k: K) -> Seq<(K, V)> {
    let i = find_key(m, k);
    if i >= 0 {
        m.remove(i)
    } else {
        m
    }
}

/// `find_key` is the first index holding the key.
pub proof fn lemma_find_key<K, V>(m: Seq<(K, V)>, k: K, i: int)
    requires
        0 <= i <= m.len(),
        forall|j: int| 0 <= j < i ==> (#[trigger] m[j]).0 != k,
        i == m.len() || m[i].0 == k,
    ensures
        find_key(m, k) == (if i == m.len() {
            -1
        } else {
            i
        }),
    decreases i,
{
    if i > 0 {
        assert(m[0].0 != k);
        assert forall|j: int| 0 <= j < i - 1 implies (#[trigger] m.drop_first()[j]).0 != k by {
            assert(m.drop_first()[j] == m[j + 1]);
        }
        lemma_find_key(m.drop_first(), k, i - 1);
    }
}

pub proof fn lemma_find_key_range<K, V>(m: Seq<(K, V)>, k: K)
    ensures
        -1 <= find_key(m, k) < m.len(),
        find_key(m, k) >= 0 ==> m[find_key(m, k)].0 == k,
        find_key(m, k) < 0 ==> forall|j: int| 0 <= j < m.len() ==> (#[trigger] m[j]).0 != k,
    decreases m.len(),
{
    if m.len() > 0 && m[0].0 != k {
        lemma_find_key_range(m.drop_first(), k);
        assert forall|j: int| 0 <= j < m.len() && find_key(m, k) < 0 implies (#[trigger] m[j]).0
            != k by {
            if j > 0 {
                assert(m[j] == m.drop_first()[j - 1]);
            }
        }
    }
}

/// No entry before the one `find_key` gives holds the key.
pub proof fn lemma_find_key_first<K, V>(m: Seq<(K, V)>, k: K)
    ensures
        forall|j: int| 0 <= j < find_key(m, k) ==> (#[trigger] m[j]).0 != k,
    decreases m.len(),
{
    lemma_find_key_range(m, k);
    if m.len() > 0 && m[0].0 != k {
        lemma_find_key_first(m.drop_first(), k);
        assert forall|j: int| 0 <= j < find_key(m, k) implies (#[trigger] m[j]).0 != k by {
            if j > 0 {
                assert(m[j] == m.drop_first()[j - 1]);
            }
        }
    }
}

/// Every entry after an insertion is the inserted one or an earlier entry.
pub proof fn lemma_assoc_insert_members<K, V>(m: Seq<(K, V)>, k: K, v: V)
    ensures
        forall|i: int|
            0 <= i < assoc_insert(m, k, v).len() ==> #[trigger] assoc_insert(m, k, v)[i] == (k, v)
                || m.contains(assoc_insert(m, k, v)[i]),
{
    lemma_find_key_range(m, k);
    let r = assoc_insert(m, k, v);
    assert forall|i: int| 0 <= i < r.len() implies #[trigger] r[i] == (k, v) || m.contains(r[i]) by {
        if r[i] != (k, v) {
            assert(r[i] == m[i]);
        }
    }
}

/// Every entry after a removal is an earlier entry.
pub proof fn lemma_assoc_remove_members<K, V>(m: Seq<(K, V)>, k: K)
    ensures
        forall|i: int| 0 <= i < assoc_remove(m, k).len() ==> m.contains(#[trigger] assoc_remove(m, k)[i]),
{
    lemma_find_key_range(m, k);
    let r = assoc_remove(m, k);
    let x = find_key(m, k);
    assert forall|i: int| 0 <= i < r.len() implies m.contains(#[trigger] r[i]) by {
        if x >= 0 && i >= x {
            assert(r[i] == m[i + 1]);
        } else {
            assert(r[i] == m[i]);
        }
    }
}

/// A value found for a key is one of the entries.
pub proof fn lemma_assoc_get_member<K, V>(m: Seq<(K, V)>, k: K)
    ensures
        assoc_get(m, k) matches Some(v) ==> m.contains((k, v)),
{
    lemma_find_key_range(m, k);
    if find_key(m, k) >= 0 {
        assert(m[find_key(m, k)] == (k, assoc_get(m, k).unwrap()));
    }
}

} // verus!

verus! {

/// Position of the first entry with key `k` (the length when there is none).
pub fn key_position<V>(v: &Vec<(u32, V)>, k: u32) -> (r: usize)
    ensures
        r <= v.len(),
        find_key(v@, k) == (if r == v.len() {
            -1
        } else {
            r as int
        }),
{
    let mut i: usize = 0;
    while i < v.len()
        invariant
            i <= v.len(),
            forall|j: int| 0 <= j < i ==> (#[trigger] v@[j]).0 != k,
        decreases v.len() - i,
    {
        if v[i].0 == k {
            proof {
                lemma_find_key(v@, k, i as int);
            }
            return i;
        }
        i = i + 1;
    }
    proof {
        lemma_find_key(v@, k, i as int);
    }
    i
}

/// Sets the value for `k`, replacing an earlier one in place.
pub fn insert_u32_key<V>(v: &mut Vec<(u32, V)>, k: u32, x: V)
    ensures
        final(v)@ == assoc_insert(old(v)@, k, x),
{
    let i = key_position(v, k);
    if i < v.len() {
        v.set(i, (k, x));
    } else {
        v.push((k, x));
    }
}

} // verus!
