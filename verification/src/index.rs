//! The map from keys to the slots of a registry: a `DashMap` of the `dashmap`
//! crate, with what this library relies on stated for each of its functions
//! that it calls. The registry holds the map alone, so that what one call
//! leaves is what the next one finds.
//!
//! The map finds a key by `Hash` and `==` of `Key`. What is stated here of
//! it rests on two keys being `==` exactly when they are the same key, which
//! is proved of `==`, and on equal keys having equal hashes, which holds of
//! the derived `Hash` of a name and its tags.

use crate::key::{Key, KeyView};
use dashmap::DashMap;
use vstd::prelude::*;

verus! {

/// `dashmap::DashMap`, a hash map that is split into shards.
#[verifier::external_type_specification]
#[verifier::external_body]
#[verifier::reject_recursive_types(K)]
#[verifier::reject_recursive_types(V)]
#[verifier::reject_recursive_types(S)]
pub struct ExDashMap<K, V, S>(DashMap<K, V, S>);

/// The slot that the map holds for each key.
pub uninterp spec fn slots_of(m: DashMap<Key, usize>) -> Map<KeyView, usize>;

/// Calls `DashMap::new`, which makes an empty map.
#[verifier::external_body]
pub(crate) fn index_new() -> (m: DashMap<Key, usize>)
    ensures
        slots_of(m) =~= Map::empty(),
{
    DashMap::new()
}

/// Calls `DashMap::get` and copies the slot out of the entry it finds, if
/// the map holds one for the key.
#[verifier::external_body]
pub(crate) fn index_get(m: &DashMap<Key, usize>, key: &Key) -> (slot: Option<usize>)
    ensures
        slot == (if slots_of(*m).contains_key(key@) {
            Some(slots_of(*m)[key@])
        } else {
            None
        }),
{
    m.get(key).map(|entry| *entry.value())
}

/// Calls `DashMap::insert`, which binds the key to the slot, in place of the
/// slot that the key had if it had one, and returns that slot.
#[verifier::external_body]
pub(crate) fn index_insert(m: &mut DashMap<Key, usize>, key: Key, slot: usize) -> (former: Option<
    usize,
>)
    ensures
        slots_of(*final(m)) == slots_of(*old(m)).insert(key@, slot),
        former == (if slots_of(*old(m)).contains_key(key@) {
            Some(slots_of(*old(m))[key@])
        } else {
            None
        }),
{
    m.insert(key, slot)
}

/// Calls `DashMap::remove`, which takes the key's entry out of the map, if it
/// has one, and returns it; the slot is handed on.
#[verifier::external_body]
pub(crate) fn index_remove(m: &mut DashMap<Key, usize>, key: &Key) -> (former: Option<usize>)
    ensures
        slots_of(*final(m)) == slots_of(*old(m)).remove(key@),
        former == (if slots_of(*old(m)).contains_key(key@) {
            Some(slots_of(*old(m))[key@])
        } else {
            None
        }),
{
    m.remove(key).map(|entry| entry.1)
}

/// Calls `DashMap::iter`, which visits every entry of the map once, in no
/// order that can be told beforehand; each key is copied and each slot
/// handed on.
#[verifier::external_body]
pub(crate) fn index_entries(m: &DashMap<Key, usize>) -> (entries: Vec<(Key, usize)>)
    ensures
        forall|i: int| 0 <= i < entries@.len() ==> slots_of(*m).contains_key((#[trigger] entries@[i]).0@) && slots_of(*m)[entries@[i].0@] == entries@[i].1,
        forall|i: int, j: int| 0 <= i < j < entries@.len() ==> (#[trigger] entries@[i]).0@ != (#[trigger] entries@[j]).0@,
        forall|k: KeyView| slots_of(*m).contains_key(k) ==> exists|i: int| 0 <= i < entries@.len() && (#[trigger] entries@[i]).0@ == k,
{
    m.iter().map(|entry| (entry.key().clone(), *entry.value())).collect()
}

} // verus!
