//! Hash maps with the Fx hasher, keyed by cache ids.
//!
//! The functions here call the methods of [`FxHashMap`] and say, over the map's
//! view, what they do for `u64` keys. They rest on the hasher giving equal keys
//! equal hashes: `rustc_hash` folds the key's words into a hash that starts at
//! zero, without any seed.
use rustc_hash::FxHashMap;
use vstd::prelude::*;

use crate::texture_cache::CacheFlags;

verus! {

/// The hash builder of [`FxHashMap`].
#[verifier::external_type_specification]
#[verifier::external_body]
pub struct ExFxBuildHasher(rustc_hash::FxBuildHasher);

/// Calls `FxHashMap::get`: hands out the value stored under `key`, if there is
/// one.
#[verifier::external_body]
pub(crate) fn get<'a, V>(map: &'a FxHashMap<u64, V>, key: u64) -> (r: Option<&'a V>)
    ensures
        match r {
            Some(value) => map@.contains_key(key) && *value == map@[key],
            None => !map@.contains_key(key),
        },
{
    map.get(&key)
}

/// Calls `FxHashMap::get_mut`: hands out the value stored under `key`, if there
/// is one. What is written through the reference is stored under `key`; nothing
/// else changes.
#[verifier::external_body]
pub(crate) fn get_mut<'a, V>(map: &'a mut FxHashMap<u64, V>, key: u64) -> (r: Option<&'a mut V>)
    ensures
        match r {
            Some(value) => {
                &&& old(map)@.contains_key(key)
                &&& *value == old(map)@[key]
                &&& final(map)@ == old(map)@.insert(key, *final(value))
            },
            None => !old(map)@.contains_key(key) && final(map)@ == old(map)@,
        },
{
    map.get_mut(&key)
}

/// Calls `FxHashMap::insert`: stores `value` under `key` and hands back the value
/// that was there before, if any.
#[verifier::external_body]
pub(crate) fn insert<V>(map: &mut FxHashMap<u64, V>, key: u64, value: V) -> (r: Option<V>)
    ensures
        final(map)@ == old(map)@.insert(key, value),
        match r {
            Some(before) => old(map)@.contains_key(key) && before == old(map)@[key],
            None => !old(map)@.contains_key(key),
        },
{
    map.insert(key, value)
}

/// Calls `FxHashMap::remove`: takes out the value stored under `key`, if there is
/// one.
#[verifier::external_body]
pub(crate) fn remove<V>(map: &mut FxHashMap<u64, V>, key: u64) -> (r: Option<V>)
    ensures
        final(map)@ == old(map)@.remove(key),
        match r {
            Some(before) => old(map)@.contains_key(key) && before == old(map)@[key],
            None => !old(map)@.contains_key(key),
        },
{
    map.remove(&key)
}

/// Calls `FxHashMap::retain`: keeps the values stored under the ids of live
/// caches and drops the others.
#[verifier::external_body]
pub(crate) fn retain_live<V>(map: &mut FxHashMap<u64, V>, flags: &CacheFlags)
    ensures
        final(map)@ == old(map)@.restrict(flags@.dom()),
{
    map.retain(|id, _| flags.is_live(*id));
}

} // verus!
