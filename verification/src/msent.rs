//! Trusted interface to `indexmap::IndexMap`, which keeps the per-node record
//! of message transmissions in the order the transmissions started.
//!
//! Each record maps a session id to `(source, destination, acknowledged)`.
//! The map's contents are named by the uninterpreted sequence
//! [`msent_entries`]; every wrapper below states, over that name, what the
//! crate's source documents of the call.

use vstd::prelude::*;

use indexmap::IndexMap;

verus! {

/// What a record stores of one transmission: source, destination, and whether
/// its success has been reported.
pub type MsentValue = (u8, u8, bool);

#[verifier::external_type_specification]
#[verifier::external_body]
#[verifier::reject_recursive_types(K)]
#[verifier::reject_recursive_types(V)]
#[verifier::reject_recursive_types(S)]
pub struct ExIndexMap<K, V, S>(IndexMap<K, V, S>);

/// The key-value pairs of the map, in its iteration order.
pub uninterp spec fn msent_entries(m: IndexMap<u64, MsentValue>) -> Seq<(u64, MsentValue)>;

/// Whether some entry of `s` carries the key `key`.
pub open spec fn msent_has_key(s: Seq<(u64, MsentValue)>, key: u64) -> bool {
    exists|i: int| 0 <= i < s.len() && s[i].0 == key
}

/// Relies on `IndexMap::new`: creates an empty map.
#[verifier::external_body]
pub(crate) fn msent_new() -> (r: IndexMap<u64, MsentValue>)
    ensures
        msent_entries(r) == Seq::<(u64, MsentValue)>::empty(),
{
    IndexMap::new()
}

/// Relies on `IndexMap::len`: the number of key-value pairs.
#[verifier::external_body]
pub(crate) fn msent_len(m: &IndexMap<u64, MsentValue>) -> (r: usize)
    ensures
        r == msent_entries(*m).len(),
{
    m.len()
}

/// Relies on `IndexMap::contains_key`: whether an entry with this key exists.
#[verifier::external_body]
pub(crate) fn msent_contains_key(m: &IndexMap<u64, MsentValue>, key: u64) -> (r: bool)
    ensures
        r == msent_has_key(msent_entries(*m), key),
{
    m.contains_key(&key)
}

/// Relies on `IndexMap::get`: the value stored for this key, if any.
#[verifier::external_body]
pub(crate) fn msent_get(m: &IndexMap<u64, MsentValue>, key: u64) -> (r: Option<MsentValue>)
    ensures
        match r {
            Some(v) => exists|i: int|
                0 <= i < msent_entries(*m).len() && msent_entries(*m)[i] == (key, v),
            None => !msent_has_key(msent_entries(*m), key),
        },
{
    m.get(&key).copied()
}

/// Relies on `IndexMap::insert`: a new key is appended last in order; an
/// existing key keeps its place and only its value is replaced, with the old
/// value returned.
#[verifier::external_body]
pub(crate) fn msent_insert(m: &mut IndexMap<u64, MsentValue>, key: u64, value: MsentValue) -> (r: Option<
    MsentValue,
>)
    ensures
        !msent_has_key(msent_entries(*old(m)), key) ==> msent_entries(*final(m)) == msent_entries(
            *old(m),
        ).push((key, value)) && r is None,
        msent_has_key(msent_entries(*old(m)), key) ==> exists|i: int|
            0 <= i < msent_entries(*old(m)).len() && msent_entries(*old(m))[i].0 == key
                && msent_entries(*final(m)) == msent_entries(*old(m)).update(i, (key, value)) && r
                == Some(msent_entries(*old(m))[i].1),
{
    m.insert(key, value)
}

/// Relies on `IndexMap::shift_remove_index` at position 0: removes the first
/// (oldest) key-value pair, shifting the rest and preserving their order.
#[verifier::external_body]
pub(crate) fn msent_evict_oldest(m: &mut IndexMap<u64, MsentValue>) -> (r: Option<(
    u64,
    MsentValue,
)>)
    ensures
        msent_entries(*old(m)).len() == 0 ==> msent_entries(*final(m)) == msent_entries(*old(m))
            && r is None,
        msent_entries(*old(m)).len() > 0 ==> msent_entries(*final(m)) == msent_entries(
            *old(m),
        ).drop_first() && r == Some(msent_entries(*old(m)).first()),
{
    m.shift_remove_index(0)
}

/// Relies on `IndexMap::clone` (for `Clone` keys and values): the copy holds
/// the same entries in the same order.
#[verifier::external_body]
pub(crate) fn msent_clone(m: &IndexMap<u64, MsentValue>) -> (r: IndexMap<u64, MsentValue>)
    ensures
        msent_entries(r) == msent_entries(*m),
{
    m.clone()
}

} // verus!
