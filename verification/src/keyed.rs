//! Tables keyed by strings, kept as a sequence of keys beside a sequence of
//! values, and their meaning as a map.
use vstd::prelude::*;

verus! {

/// Index of the first `k` in `keys`, or the length.
pub open spec fn key_index(keys: Seq<Seq<char>>, k: Seq<char>) -> int
    decreases keys.len(),
{
    if keys.len() == 0 {
        0
    } else if keys[0] == k {
        0
    } else {
        1 + key_index(keys.drop_first(), k)
    }
}

/// Facts about `key_index`.
pub proof fn lemma_key_index(keys: Seq<Seq<char>>, k: Seq<char>)
    ensures
        0 <= key_index(keys, k) <= keys.len(),
        key_index(keys, k) < keys.len() ==> keys[key_index(keys, k)] == k,
        forall|j: int| 0 <= j < key_index(keys, k) ==> keys[j] != k,
        keys.contains(k) <==> key_index(keys, k) < keys.len(),
    decreases keys.len(),
{
    if keys.len() > 0 && keys[0] != k {
        lemma_key_index(keys.drop_first(), k);
        assert forall|j: int| 0 <= j < key_index(keys, k) implies keys[j] != k by {
            if j > 0 {
                assert(keys[j] == keys.drop_first()[j - 1]);
            }
        }
        if keys.contains(k) {
            let j = choose|j: int| 0 <= j < keys.len() && keys[j] == k;
            assert(keys.drop_first()[j - 1] == k);
        }
        if key_index(keys, k) < keys.len() {
            assert(keys.contains(k));
        }
    } else if keys.len() > 0 {
        assert(keys.contains(k));
    }
}

/// In a duplicate-free key list, the index of the key at `i` is `i`.
pub proof fn lemma_key_index_distinct(keys: Seq<Seq<char>>, i: int)
    requires
        keys.no_duplicates(),
        0 <= i < keys.len(),
    ensures
        key_index(keys, keys[i]) == i,
{
    lemma_key_index(keys, keys[i]);
    let p = key_index(keys, keys[i]);
    if p < i {
        assert(keys[p] == keys[i]);
    }
}

/// The table as a map: each key to the value beside its first occurrence.
pub open spec fn kv_map<T>(keys: Seq<Seq<char>>, vals: Seq<T>) -> Map<Seq<char>, T> {
    Map::new(|k: Seq<char>| keys.contains(k), |k: Seq<char>| vals[key_index(keys, k)])
}

/// Appending a new key adds it to the map.
pub proof fn lemma_kv_push<T>(keys: Seq<Seq<char>>, vals: Seq<T>, k: Seq<char>, v: T)
    requires
        keys.len() == vals.len(),
        !keys.contains(k),
    ensures
        kv_map(keys.push(k), vals.push(v)) == kv_map(keys, vals).insert(k, v),
        keys.no_duplicates() ==> keys.push(k).no_duplicates(),
{
    let k2 = keys.push(k);
    let v2 = vals.push(v);
    assert forall|q: Seq<char>| k2.contains(q) <==> (keys.contains(q) || q == k) by {
        if k2.contains(q) {
            let j = choose|j: int| 0 <= j < k2.len() && k2[j] == q;
            if j < keys.len() {
                assert(keys[j] == q);
            }
        }
        if keys.contains(q) {
            let j = choose|j: int| 0 <= j < keys.len() && keys[j] == q;
            assert(k2[j] == q);
        }
        if q == k {
            assert(k2[keys.len() as int] == q);
        }
    }
    assert forall|q: Seq<char>| #[trigger] k2.contains(q) implies v2[key_index(k2, q)] == kv_map(keys, vals).insert(k, v)[q] by {
        lemma_key_index(k2, q);
        lemma_key_index(keys, q);
        if q == k {
            let p = key_index(k2, q);
            if p < keys.len() {
                assert(keys[p] == k);
                assert(keys.contains(k));
            }
        } else {
            let p = key_index(keys, q);
            assert(keys.contains(q));
            assert(k2[p] == q);
            let p2 = key_index(k2, q);
            if p2 < p {
                assert(keys[p2] == q);
            }
            if p < p2 {
                assert(k2[p] == q);
            }
        }
    }
    assert(kv_map(k2, v2) =~= kv_map(keys, vals).insert(k, v));
    if keys.no_duplicates() {
        assert forall|a: int, b: int| 0 <= a < k2.len() && 0 <= b < k2.len() && a != b implies k2[a] != k2[b] by {
            if a < keys.len() && b < keys.len() {
            } else if a < keys.len() {
                assert(keys.contains(keys[a]));
            } else if b < keys.len() {
                assert(keys.contains(keys[b]));
            }
        }
    }
}

/// Replacing the value beside a key replaces it in the map.
pub proof fn lemma_kv_update<T>(keys: Seq<Seq<char>>, vals: Seq<T>, i: int, v: T)
    requires
        keys.len() == vals.len(),
        keys.no_duplicates(),
        0 <= i < keys.len(),
    ensures
        kv_map(keys, vals.update(i, v)) == kv_map(keys, vals).insert(keys[i], v),
{
    let m = kv_map(keys, vals.update(i, v));
    assert forall|q: Seq<char>| #[trigger] keys.contains(q) implies vals.update(i, v)[key_index(keys, q)]
        == kv_map(keys, vals).insert(keys[i], v)[q] by {
        lemma_key_index(keys, q);
        if q == keys[i] {
            lemma_key_index_distinct(keys, i);
        } else {
            let p = key_index(keys, q);
            assert(p != i);
        }
    }
    assert(keys.contains(keys[i]));
    assert(m =~= kv_map(keys, vals).insert(keys[i], v));
}

/// Removing an entry removes its key from the map.
pub proof fn lemma_kv_remove<T>(keys: Seq<Seq<char>>, vals: Seq<T>, i: int)
    requires
        keys.len() == vals.len(),
        keys.no_duplicates(),
        0 <= i < keys.len(),
    ensures
        kv_map(keys.remove(i), vals.remove(i)) == kv_map(keys, vals).remove(keys[i]),
        keys.remove(i).no_duplicates(),
{
    let k2 = keys.remove(i);
    let v2 = vals.remove(i);
    assert forall|a: int, b: int| 0 <= a < k2.len() && 0 <= b < k2.len() && a != b implies k2[a] != k2[b] by {
        let ia = if a < i { a } else { a + 1 };
        let ib = if b < i { b } else { b + 1 };
        assert(k2[a] == keys[ia] && k2[b] == keys[ib]);
    }
    assert forall|q: Seq<char>| k2.contains(q) <==> (keys.contains(q) && q != keys[i]) by {
        if k2.contains(q) {
            let j = choose|j: int| 0 <= j < k2.len() && k2[j] == q;
            let ij = if j < i { j } else { j + 1 };
            assert(keys[ij] == q);
            assert(ij != i);
        }
        if keys.contains(q) && q != keys[i] {
            let j = choose|j: int| 0 <= j < keys.len() && keys[j] == q;
            if j < i {
                assert(k2[j] == q);
            } else {
                assert(j != i);
                assert(k2[j - 1] == q);
            }
        }
    }
    assert forall|q: Seq<char>| #[trigger] k2.contains(q) implies v2[key_index(k2, q)] == kv_map(keys, vals)[q] by {
        lemma_key_index(k2, q);
        lemma_key_index(keys, q);
        let p2 = key_index(k2, q);
        let p = key_index(keys, q);
        let ip = if p2 < i { p2 } else { p2 + 1 };
        assert(keys[ip] == q);
        lemma_key_index_distinct(keys, ip);
    }
    assert(kv_map(k2, v2) =~= kv_map(keys, vals).remove(keys[i]));
}

/// The value beside the key at `i` is the map's value for it.
pub proof fn lemma_kv_at<T>(keys: Seq<Seq<char>>, vals: Seq<T>, i: int)
    requires
        keys.len() == vals.len(),
        keys.no_duplicates(),
        0 <= i < keys.len(),
    ensures
        kv_map(keys, vals).dom().contains(keys[i]),
        kv_map(keys, vals)[keys[i]] == vals[i],
{
    assert(keys.contains(keys[i]));
    lemma_key_index_distinct(keys, i);
}

} // verus!
