//! Trusted view of the insertion-ordered map that backs the time algebra.
//!
//! The map is `linked_hash_map::LinkedHashMap<u64, u64>` from event
//! identifier to offset.  Its contents are named by [`lhm_entries`]: the
//! key-value pairs in iteration order.  Each wrapper below states, over
//! that name, what the crate's source shows the method does.

use linked_hash_map::LinkedHashMap;
use vstd::prelude::*;

verus! {

#[verifier::external_type_specification]
#[verifier::external_body]
#[verifier::reject_recursive_types(K)]
#[verifier::reject_recursive_types(V)]
#[verifier::reject_recursive_types(S)]
pub struct ExLinkedHashMap<K, V, S>(LinkedHashMap<K, V, S>);

/// What the map holds: its key-value pairs, in iteration order.
pub uninterp spec fn lhm_entries(m: LinkedHashMap<u64, u64>) -> Seq<(u64, u64)>;

/// Does some pair of `s` carry the key `k`?
pub open spec fn has_key(s: Seq<(u64, u64)>, k: u64) -> bool {
    exists|i: int| 0 <= i < s.len() && s[i].0 == k
}

/// `s` without the pairs that carry the key `k`.
pub open spec fn remove_key(s: Seq<(u64, u64)>, k: u64) -> Seq<(u64, u64)>
    decreases s.len(),
{
    if s.len() == 0 {
        Seq::empty()
    } else if s[0].0 == k {
        remove_key(s.drop_first(), k)
    } else {
        seq![s[0]] + remove_key(s.drop_first(), k)
    }
}

/// The value of the first pair of `s` that carries the key `k`.
pub open spec fn lookup(s: Seq<(u64, u64)>, k: u64) -> Option<u64>
    decreases s.len(),
{
    if s.len() == 0 {
        None
    } else if s[0].0 == k {
        Some(s[0].1)
    } else {
        lookup(s.drop_first(), k)
    }
}

/// No two pairs of `s` carry the same key.
pub open spec fn unique_keys(s: Seq<(u64, u64)>) -> bool {
    forall|i: int, j: int| 0 <= i < j < s.len() ==> s[i].0 != s[j].0
}

/// Relies on `LinkedHashMap::new`: a fresh map has no entries.
#[verifier::external_body]
pub(crate) fn lhm_new() -> (r: LinkedHashMap<u64, u64>)
    ensures
        lhm_entries(r) == Seq::<(u64, u64)>::empty(),
{
    LinkedHashMap::new()
}

/// Relies on `LinkedHashMap::insert`: an entry for the key, if present,
/// is detached and the pair is attached at the back of the iteration
/// order with the new value; the displaced value is returned.
#[verifier::external_body]
pub(crate) fn lhm_insert(m: &mut LinkedHashMap<u64, u64>, k: u64, v: u64) -> (r: Option<u64>)
    ensures
        lhm_entries(*final(m)) == remove_key(lhm_entries(*old(m)), k).push((k, v)),
        r == lookup(lhm_entries(*old(m)), k),
{
    m.insert(k, v)
}

/// Relies on `LinkedHashMap::len`: the number of entries.
#[verifier::external_body]
pub(crate) fn lhm_len(m: &LinkedHashMap<u64, u64>) -> (r: usize)
    ensures
        r == lhm_entries(*m).len(),
{
    m.len()
}

/// Relies on `LinkedHashMap::get`: the value stored under the key.
#[verifier::external_body]
pub(crate) fn lhm_get(m: &LinkedHashMap<u64, u64>, k: u64) -> (r: Option<u64>)
    ensures
        r == lookup(lhm_entries(*m), k),
{
    m.get(&k).copied()
}

/// Relies on `LinkedHashMap::iter`: entries come out in iteration order,
/// and a map never holds two entries with the same key.
#[verifier::external_body]
pub(crate) fn lhm_to_vec(m: &LinkedHashMap<u64, u64>) -> (r: Vec<(u64, u64)>)
    ensures
        r@ == lhm_entries(*m) && unique_keys(r@),
{
    m.iter().map(|(k, v)| (*k, *v)).collect()
}

/// Relies on `LinkedHashMap::clone`: the clone extends a fresh map with
/// the entries in iteration order, so it holds the same entries.
#[verifier::external_body]
pub(crate) fn lhm_clone(m: &LinkedHashMap<u64, u64>) -> (r: LinkedHashMap<u64, u64>)
    ensures
        lhm_entries(r) == lhm_entries(*m),
{
    m.clone()
}

} // verus!
