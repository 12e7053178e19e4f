//! Hash maps and hash sets of the `rustc_hash` crate, keyed by integers.
//!
//! `FxHashMap` and `FxHashSet` are std's tables with the hasher of
//! `rustc_hash`. Every function here makes one call into such a table; its
//! contract speaks of the table's contents, a `Map` or a `Set`, and is not
//! proved but read off the documentation of the call. The hasher folds what is
//! written to it by fixed arithmetic from a fixed start, and the keys are
//! integers, so equal keys always meet in the table.
use rustc_hash::{FxHashMap, FxHashSet};
use vstd::prelude::*;

verus! {

/// The hasher factory of `rustc_hash`: a type without fields, which only
/// stands in the types of the tables.
#[verifier::external_type_specification]
#[verifier::external_body]
pub struct ExFxBuildHasher(rustc_hash::FxBuildHasher);

/// The integer types that the tables of this crate are keyed by.
pub(crate) trait IntegerKey: Copy + Eq + core::hash::Hash {

}

impl IntegerKey for u64 {

}

impl IntegerKey for u128 {

}

/// `HashMap::get`: the value stored under the key, if there is one.
#[verifier::external_body]
pub(crate) fn map_get<K: IntegerKey, V>(map: &FxHashMap<K, V>, key: K) -> (value: Option<&V>)
    ensures
        value == (if map@.contains_key(key) {
            Some(&map@[key])
        } else {
            None
        }),
{
    map.get(&key)
}

/// `HashMap::get_mut`: the value stored under the key, if there is one, for
/// changing. The caller's last value stands under the key afterwards, and
/// every other entry stays.
#[verifier::external_body]
pub(crate) fn map_get_mut<K: IntegerKey, V>(map: &mut FxHashMap<K, V>, key: K) -> (value: Option<
    &mut V,
>)
    ensures
        match value {
            Some(value) => old(map)@.contains_key(key) && *value == old(map)@[key] && final(map)@
                == old(map)@.insert(key, *final(value)),
            None => !old(map)@.contains_key(key) && final(map)@ == old(map)@,
        },
{
    map.get_mut(&key)
}

/// `HashMap::insert`: the value stands under the key afterwards, and every
/// other entry stays. What stood there before is handed back.
#[verifier::external_body]
pub(crate) fn map_insert<K: IntegerKey, V>(map: &mut FxHashMap<K, V>, key: K, value: V) -> (before:
    Option<V>)
    ensures
        final(map)@ == old(map)@.insert(key, value),
        before == (if old(map)@.contains_key(key) {
            Some(old(map)@[key])
        } else {
            None
        }),
{
    map.insert(key, value)
}

/// `HashMap::remove`: the key is absent afterwards, and every other entry
/// stays. The value that stood there is handed back.
#[verifier::external_body]
pub(crate) fn map_remove<K: IntegerKey, V>(map: &mut FxHashMap<K, V>, key: K) -> (before: Option<V>)
    ensures
        final(map)@ == old(map)@.remove(key),
        before == (if old(map)@.contains_key(key) {
            Some(old(map)@[key])
        } else {
            None
        }),
{
    map.remove(&key)
}

/// `HashMap::len`: the number of keys.
#[verifier::external_body]
pub(crate) fn map_len<K: IntegerKey, V>(map: &FxHashMap<K, V>) -> (len: usize)
    ensures
        len == map@.dom().len(),
{
    map.len()
}

/// `HashMap::keys`: every key once, in an order that nothing promises.
#[verifier::external_body]
pub(crate) fn map_keys<K: IntegerKey, V>(map: &FxHashMap<K, V>) -> (keys: Vec<K>)
    ensures
        keys@.no_duplicates(),
        keys@.to_set() == map@.dom(),
{
    map.keys().copied().collect()
}

/// `HashMap::try_reserve`: makes room for further keys, or reports that the
/// allocator refused. The contents stay either way; whether room is granted
/// is up to the machine, so nothing is said of it.
#[verifier::external_body]
pub(crate) fn map_try_reserve<K: IntegerKey, V>(map: &mut FxHashMap<K, V>, additional: usize) -> (granted:
    bool)
    ensures
        final(map)@ == old(map)@,
{
    map.try_reserve(additional).is_ok()
}

/// Whether a call of [`map_try_reserve`] for so many further members came back
/// refused. Only such a call can show it.
pub closed spec fn members_room_refused(additional: usize) -> bool {
    exists|map: &mut FxHashMap<u128, FxHashSet<u64>>| #[trigger]
        call_ensures(map_try_reserve::<u128, FxHashSet<u64>>, (map, additional), false)
}

/// Whether a call of [`map_try_reserve`] for so many further counts came back
/// refused. Only such a call can show it.
pub closed spec fn counts_room_refused(additional: usize) -> bool {
    exists|map: &mut FxHashMap<u64, u32>| #[trigger]
        call_ensures(map_try_reserve::<u64, u32>, (map, additional), false)
}

/// Makes room for further members, or shows that it was refused.
pub(crate) fn try_members(map: &mut FxHashMap<u128, FxHashSet<u64>>, additional: usize) -> (granted:
    bool)
    ensures
        final(map)@ == old(map)@,
        !granted ==> members_room_refused(additional),
{
    map_try_reserve(map, additional)
}

/// Makes room for further counts, or shows that it was refused.
pub(crate) fn try_counts(map: &mut FxHashMap<u64, u32>, additional: usize) -> (granted: bool)
    ensures
        final(map)@ == old(map)@,
        !granted ==> counts_room_refused(additional),
{
    map_try_reserve(map, additional)
}

/// `HashMap::capacity`: a number of keys that the map can hold without a new
/// allocation, those that it holds included. How far it exceeds them is up to
/// the table and its allocator.
#[verifier::external_body]
pub(crate) fn map_capacity<K: IntegerKey, V>(map: &FxHashMap<K, V>) -> (capacity: usize)
    ensures
        capacity >= map@.dom().len(),
{
    map.capacity()
}

/// `HashSet::contains`: whether the element is in the set.
#[verifier::external_body]
pub(crate) fn set_contains(set: &FxHashSet<u64>, element: u64) -> (found: bool)
    ensures
        found == set@.contains(element),
{
    set.contains(&element)
}

/// `HashSet::insert`: adds the element, and says whether it was new.
#[verifier::external_body]
pub(crate) fn set_insert(set: &mut FxHashSet<u64>, element: u64) -> (inserted: bool)
    ensures
        final(set)@ == old(set)@.insert(element),
        inserted == !old(set)@.contains(element),
{
    set.insert(element)
}

/// `HashSet::remove`: takes the element out, and says whether it was there.
#[verifier::external_body]
pub(crate) fn set_remove(set: &mut FxHashSet<u64>, element: u64) -> (removed: bool)
    ensures
        final(set)@ == old(set)@.remove(element),
        removed == old(set)@.contains(element),
{
    set.remove(&element)
}

/// `HashSet::len`: the number of elements.
#[verifier::external_body]
pub(crate) fn set_len(set: &FxHashSet<u64>) -> (len: usize)
    ensures
        len == set@.len(),
{
    set.len()
}

/// `HashSet::iter` into `Vec::extend`: appends every element once, in an order
/// that nothing promises.
#[verifier::external_body]
pub(crate) fn set_append_to(set: &FxHashSet<u64>, out: &mut Vec<u64>)
    ensures
        final(out)@.len() >= old(out)@.len(),
        final(out)@.take(old(out)@.len() as int) == old(out)@,
        final(out)@.skip(old(out)@.len() as int).no_duplicates(),
        final(out)@.skip(old(out)@.len() as int).to_set() == set@,
{
    out.extend(set.iter().copied())
}

/// `HashSet::try_reserve`: makes room for further elements, or reports that
/// the allocator refused. The contents stay either way; whether room is
/// granted is up to the machine, so nothing is said of it.
#[verifier::external_body]
pub(crate) fn set_try_reserve(set: &mut FxHashSet<u64>, additional: usize) -> (granted: bool)
    ensures
        final(set)@ == old(set)@,
{
    set.try_reserve(additional).is_ok()
}

/// Whether a call of [`set_try_reserve`] for so many further elements came back
/// refused. Only such a call can show it.
pub closed spec fn blocks_room_refused(additional: usize) -> bool {
    exists|set: &mut FxHashSet<u64>| #[trigger]
        call_ensures(set_try_reserve, (set, additional), false)
}

/// Room in a table counts as refused only where the allocator was asked for so
/// much and answered that it has none.
pub(crate) proof fn law_refused_table_room_was_asked_for(additional: usize)
    ensures
        members_room_refused(additional) ==> exists|
            map: &mut FxHashMap<u128, FxHashSet<u64>>,
        | #[trigger]
            call_ensures(map_try_reserve::<u128, FxHashSet<u64>>, (map, additional), false),
        counts_room_refused(additional) ==> exists|map: &mut FxHashMap<u64, u32>| #[trigger]
            call_ensures(map_try_reserve::<u64, u32>, (map, additional), false),
        blocks_room_refused(additional) ==> exists|set: &mut FxHashSet<u64>| #[trigger]
            call_ensures(set_try_reserve, (set, additional), false),
{
}

/// Makes room for further blocks, or shows that it was refused.
pub(crate) fn try_blocks(set: &mut FxHashSet<u64>, additional: usize) -> (granted: bool)
    ensures
        final(set)@ == old(set)@,
        !granted ==> blocks_room_refused(additional),
{
    set_try_reserve(set, additional)
}

/// `HashSet::capacity`: a number of elements that the set can hold without a
/// new allocation, those that it holds included. How far it exceeds them is up
/// to the table and its allocator.
#[verifier::external_body]
pub(crate) fn set_capacity(set: &FxHashSet<u64>) -> (capacity: usize)
    ensures
        capacity >= set@.len(),
{
    set.capacity()
}

} // verus!
