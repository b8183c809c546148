//! Lookups in association lists of strings: the first entry whose key
//! matches is the one that counts.

use vstd::prelude::*;
use crate::text::chars_eq;

verus! {

/// The index of the first key equal to `key`, if any.
pub open spec fn first_index(keys: Seq<Seq<char>>, key: Seq<char>) -> Option<int> {
    if exists|k: int| is_first_index(keys, key, k) {
        Some(choose|k: int| is_first_index(keys, key, k))
    } else {
        None
    }
}

pub open spec fn is_first_index(keys: Seq<Seq<char>>, key: Seq<char>, k: int) -> bool {
    0 <= k < keys.len() && keys[k] == key && forall|j: int| 0 <= j < k ==> keys[j] != key
}

pub proof fn lemma_first_index_unique(keys: Seq<Seq<char>>, key: Seq<char>, k: int)
    requires
        is_first_index(keys, key, k),
    ensures
        first_index(keys, key) == Some(k),
{
    let c = choose|m: int| is_first_index(keys, key, m);
    assert(is_first_index(keys, key, c));
    if c < k {
        assert(keys[c] == key);
    }
    if c > k {
        assert(keys[k] != key);
    }
}

pub proof fn lemma_first_index_none(keys: Seq<Seq<char>>, key: Seq<char>)
    requires
        forall|j: int| 0 <= j < keys.len() ==> keys[j] != key,
    ensures
        first_index(keys, key) is None,
{
}

pub proof fn lemma_first_index_some(keys: Seq<Seq<char>>, key: Seq<char>)
    ensures
        first_index(keys, key) is Some <==> keys.contains(key),
        first_index(keys, key) matches Some(k) ==> is_first_index(keys, key, k),
{
    if keys.contains(key) {
        let k0 = choose|k: int| 0 <= k < keys.len() && keys[k] == key;
        lemma_min_index(keys, key, k0);
    }
}

proof fn lemma_min_index(keys: Seq<Seq<char>>, key: Seq<char>, k0: int)
    requires
        0 <= k0 < keys.len(),
        keys[k0] == key,
    ensures
        exists|k: int| is_first_index(keys, key, k),
    decreases k0,
{
    if exists|j: int| 0 <= j < k0 && keys[j] == key {
        let j = choose|j: int| 0 <= j < k0 && keys[j] == key;
        lemma_min_index(keys, key, j);
    } else {
        assert(is_first_index(keys, key, k0));
    }
}

/// The position of the first string in `keys` equal to `key`.
pub fn position_of(keys: &Vec<String>, key: &Vec<char>) -> (r: Option<usize>)
    ensures
        r is Some <==> first_index(keys@.map_values(|s: String| s@), key@) is Some,
        r matches Some(k) ==> first_index(keys@.map_values(|s: String| s@), key@) == Some(
            k as int,
        ),
{
    let ghost ks = keys@.map_values(|s: String| s@);
    let mut i: usize = 0;
    while i < keys.len()
        invariant
            i <= keys.len(),
            ks == keys@.map_values(|s: String| s@),
            forall|j: int| 0 <= j < i ==> ks[j] != key@,
        decreases keys.len() - i,
    {
        let cand = crate::text::chars_of(keys[i].as_str());
        if chars_eq(&cand, key) {
            proof {
                assert(is_first_index(ks, key@, i as int));
                lemma_first_index_unique(ks, key@, i as int);
            }
            return Some(i);
        }
        i = i + 1;
    }
    None
}

/// Whether `key` is one of `keys`.
pub fn contains_string(keys: &Vec<String>, key: &Vec<char>) -> (r: bool)
    ensures
        r == keys@.map_values(|s: String| s@).contains(key@),
{
    let p = position_of(keys, key);
    proof {
        lemma_first_index_some(keys@.map_values(|s: String| s@), key@);
    }
    p.is_some()
}

} // verus!
