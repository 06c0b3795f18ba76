//! Association lists keyed by strings: a lookup finds the first entry whose
//! key matches, an update rewrites that entry or appends a new one.
use vstd::prelude::*;

verus! {

/// Index of the first of `keys[i..]` equal to `k`, or `keys.len()`.
pub open spec fn first_index(keys: Seq<Seq<char>>, k: Seq<char>, i: int) -> int
    decreases keys.len() - i,
{
    if i < 0 || i >= keys.len() {
        keys.len() as int
    } else if keys[i] == k {
        i
    } else {
        first_index(keys, k, i + 1)
    }
}

/// Index of the first entry keyed `k`, or `keys.len()`.
pub open spec fn index_of(keys: Seq<Seq<char>>, k: Seq<char>) -> int {
    first_index(keys, k, 0)
}

/// The keys of a list of entries.
pub open spec fn keys_of<T>(e: Seq<(String, T)>) -> Seq<Seq<char>> {
    e.map_values(|p: (String, T)| p.0@)
}

pub proof fn lemma_first_index_bounds(keys: Seq<Seq<char>>, k: Seq<char>, i: int)
    requires
        0 <= i <= keys.len(),
    ensures
        i <= first_index(keys, k, i) <= keys.len(),
        first_index(keys, k, i) < keys.len() ==> keys[first_index(keys, k, i)] == k,
        forall|j: int| i <= j < first_index(keys, k, i) ==> #[trigger] keys[j] != k,
    decreases keys.len() - i,
{
    if i < keys.len() && keys[i] != k {
        lemma_first_index_bounds(keys, k, i + 1);
    }
}

/// `index_of` is the first position holding `k`.
pub proof fn lemma_index_of(keys: Seq<Seq<char>>, k: Seq<char>)
    ensures
        0 <= index_of(keys, k) <= keys.len(),
        index_of(keys, k) < keys.len() ==> keys[index_of(keys, k)] == k,
        forall|j: int| 0 <= j < index_of(keys, k) ==> #[trigger] keys[j] != k,
{
    lemma_first_index_bounds(keys, k, 0);
}

/// A position that holds `k` with no earlier `k` is `index_of(keys, k)`.
pub proof fn lemma_index_of_unique(keys: Seq<Seq<char>>, k: Seq<char>, p: int)
    requires
        0 <= p <= keys.len(),
        p < keys.len() ==> keys[p] == k,
        forall|j: int| 0 <= j < p ==> #[trigger] keys[j] != k,
    ensures
        index_of(keys, k) == p,
{
    lemma_index_of(keys, k);
    if index_of(keys, k) < p {
        assert(keys[index_of(keys, k)] != k);
    }
    if p < index_of(keys, k) {
        assert(keys[p] != k);
    }
}

/// Appending a key leaves the position of every key already present
/// unchanged; an absent key is then found at the new last position if it
/// is the one appended.
pub proof fn lemma_index_of_push(keys: Seq<Seq<char>>, k0: Seq<char>, k: Seq<char>)
    ensures
        index_of(keys.push(k0), k) == if index_of(keys, k) < keys.len() {
            index_of(keys, k)
        } else if k == k0 {
            keys.len() as int
        } else {
            keys.len() + 1int
        },
{
    let ks = keys.push(k0);
    lemma_index_of(keys, k);
    let p = index_of(keys, k);
    if p < keys.len() {
        assert(ks[p] == k);
        assert forall|j: int| 0 <= j < p implies #[trigger] ks[j] != k by {
            assert(ks[j] == keys[j]);
        }
        lemma_index_of_unique(ks, k, p);
    } else if k == k0 {
        assert forall|j: int| 0 <= j < keys.len() implies #[trigger] ks[j] != k by {
            assert(ks[j] == keys[j]);
        }
        lemma_index_of_unique(ks, k, keys.len() as int);
    } else {
        assert forall|j: int| 0 <= j < ks.len() implies #[trigger] ks[j] != k by {
            if j < keys.len() {
                assert(ks[j] == keys[j]);
            }
        }
        lemma_index_of_unique(ks, k, ks.len() as int);
    }
}

/// A key that `index_of` does not find is not among the keys.
pub proof fn lemma_index_of_absent(keys: Seq<Seq<char>>, k: Seq<char>)
    requires
        index_of(keys, k) == keys.len(),
    ensures
        !keys.contains(k),
{
    lemma_index_of(keys, k);
}

/// Appending a key that is not there keeps the keys distinct.
pub proof fn lemma_push_distinct(keys: Seq<Seq<char>>, k: Seq<char>)
    requires
        keys.no_duplicates(),
        index_of(keys, k) == keys.len(),
    ensures
        keys.push(k).no_duplicates(),
{
    lemma_index_of(keys, k);
    let ks = keys.push(k);
    assert forall|i: int, j: int| 0 <= i < ks.len() && 0 <= j < ks.len() && i != j implies ks[i]
        != ks[j] by {
        if i < keys.len() && j < keys.len() {
            assert(ks[i] == keys[i] && ks[j] == keys[j]);
        } else if i < keys.len() {
            assert(ks[i] == keys[i]);
        } else {
            assert(ks[j] == keys[j]);
        }
    }
}

/// Removing a key keeps the keys distinct.
pub proof fn lemma_remove_distinct(keys: Seq<Seq<char>>, p: int)
    requires
        keys.no_duplicates(),
        0 <= p < keys.len(),
    ensures
        keys.remove(p).no_duplicates(),
        !keys.remove(p).contains(keys[p]),
{
    let ks = keys.remove(p);
    assert forall|i: int, j: int| 0 <= i < ks.len() && 0 <= j < ks.len() && i != j implies ks[i]
        != ks[j] by {
        let a = if i < p { i } else { i + 1 };
        let b = if j < p { j } else { j + 1 };
        assert(ks[i] == keys[a] && ks[j] == keys[b]);
    }
    if ks.contains(keys[p]) {
        let i = choose|i: int| 0 <= i < ks.len() && ks[i] == keys[p];
        let a = if i < p { i } else { i + 1 };
        assert(ks[i] == keys[a]);
    }
}

/// Position of the first entry whose key equals `key`, or `entries.len()`.
pub fn find_key<T>(entries: &Vec<(String, T)>, key: &String) -> (r: usize)
    ensures
        r == index_of(keys_of(entries@), key@),
{
    let ghost ks = keys_of(entries@);
    let mut i: usize = 0;
    while i < entries.len()
        invariant
            i <= entries@.len(),
            ks == keys_of(entries@),
            first_index(ks, key@, 0) == first_index(ks, key@, i as int),
        decreases entries@.len() - i,
    {
        if entries[i].0 == *key {
            assert(ks[i as int] == key@);
            return i;
        }
        assert(ks[i as int] != key@);
        i += 1;
    }
    i
}

} // verus!
