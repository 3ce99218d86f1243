//! The slot store and the hasher: the calls this library makes into code it
//! does not verify.
//!
//! Slots live in a `nohash_hasher::IntMap` keyed by `u64`: a
//! `std::collections::HashMap` whose hasher, `NoHashHasher`, takes the one
//! `write_u64` that hashing a `u64` makes and hands the key back as its hash.
//! vstd's contracts for `HashMap` take effect only under hasher builders it
//! knows to build hashers that agree with one another, and it knows that of
//! the standard builder alone. So the map's methods are called through the
//! functions below, whose contracts are taken on trust. Each says of one call
//! what the documentation of `HashMap` says of it, over the map's view. None
//! speaks of running out of memory.
use vstd::prelude::*;
use std::hash::{BuildHasherDefault, Hash, Hasher};
use nohash_hasher::{BuildNoHashHasher, IntMap, NoHashHasher};

verus! {

/// `nohash_hasher::NoHashHasher`: the pass-through hasher. Opaque here.
#[verifier::external_type_specification]
#[verifier::external_body]
#[verifier::reject_recursive_types(T)]
pub struct ExNoHashHasher<T>(NoHashHasher<T>);

/// `std::hash::BuildHasherDefault`: builds a hasher from its `Default`.
/// Opaque here.
#[verifier::external_type_specification]
#[verifier::external_body]
#[verifier::reject_recursive_types(H)]
pub struct ExBuildHasherDefault<H>(BuildHasherDefault<H>);

/// Calls `HashMap::with_capacity_and_hasher` with
/// `BuildNoHashHasher::default()`. Claims that the new map holds nothing;
/// the capacity is only a hint to the allocator.
#[verifier::external_body]
pub(crate) fn with_room<V>(capacity: usize) -> (map: IntMap<u64, V>)
    ensures
        map@.dom() == Set::<u64>::empty(),
{
    std::collections::HashMap::with_capacity_and_hasher(capacity, BuildNoHashHasher::default())
}

/// Calls `HashMap::get`. Claims that the result is the value stored under
/// `key`, and `None` exactly when nothing is stored under it.
#[verifier::external_body]
pub(crate) fn slot_get<V>(map: &IntMap<u64, V>, key: u64) -> (found: Option<&V>)
    ensures
        found.is_some() == map@.contains_key(key),
        found.is_some() ==> *found.unwrap() == map@[key],
{
    map.get(&key)
}

/// Calls `HashMap::get_mut`. Claims that the result is `None` exactly when
/// nothing is stored under `key`, and the map is then unchanged; that
/// otherwise the borrow starts out as the value stored under `key`, and the
/// map ends as it began but for that value, which ends as the borrow leaves
/// it.
#[verifier::external_body]
pub(crate) fn slot_get_mut<V>(map: &mut IntMap<u64, V>, key: u64) -> (found: Option<&mut V>)
    ensures
        found.is_some() == old(map)@.contains_key(key),
        found.is_none() ==> final(map)@ == old(map)@,
        found.is_some() ==> *found.unwrap() == old(map)@[key],
        found.is_some() ==> final(map)@ == old(map)@.insert(key, *final(found.unwrap())),
{
    map.get_mut(&key)
}

/// Calls `HashMap::insert`. Claims that afterwards `value` is stored under
/// `key` and every other key is as before, and that the result is the value
/// stored under `key` before, if any.
#[verifier::external_body]
pub(crate) fn slot_insert<V>(map: &mut IntMap<u64, V>, key: u64, value: V) -> (displaced: Option<V>)
    ensures
        final(map)@ == old(map)@.insert(key, value),
        displaced.is_some() == old(map)@.contains_key(key),
        displaced.is_some() ==> displaced.unwrap() == old(map)@[key],
{
    map.insert(key, value)
}

/// Calls `HashMap::remove`. Claims that afterwards nothing is stored under
/// `key` and every other key is as before, and that the result is the value
/// stored under `key` before, if any.
#[verifier::external_body]
pub(crate) fn slot_remove<V>(map: &mut IntMap<u64, V>, key: u64) -> (removed: Option<V>)
    ensures
        final(map)@ == old(map)@.remove(key),
        removed.is_some() == old(map)@.contains_key(key),
        removed.is_some() ==> removed.unwrap() == old(map)@[key],
{
    map.remove(&key)
}

/// Calls `Hash::hash`, which feeds `content` to `hasher`. What this does to
/// the hasher is up to the two implementations: nothing is claimed.
#[verifier::external_body]
pub(crate) fn feed<C: Hash, H: Hasher>(content: &C, hasher: &mut H) {
    content.hash(hasher)
}

/// Calls `Hasher::finish`. The digest is up to the hasher and to all it has
/// been fed so far: nothing is claimed.
#[verifier::external_body]
pub(crate) fn digest<H: Hasher>(hasher: &H) -> (digest: u64) {
    hasher.finish()
}

} // verus!
