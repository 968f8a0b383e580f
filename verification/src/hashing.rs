//! The hash map that keys the shells: the standard map with the FNV hasher.
//!
//! vstd describes the standard map only for hashers that it knows to be
//! deterministic. The FNV hasher is deterministic too: it starts from a fixed
//! basis and folds in the bytes it is given. So the calls below are given the
//! description that vstd gives them for its own hasher, for every key type
//! that obeys vstd's hash-table model. Nothing here is proved: each item says
//! what the map is taken to do.

use fnv::FnvHashMap;
use fnv::FnvHasher;
use std::collections::hash_map::Entry;
use std::collections::hash_map::Iter;
use std::hash::BuildHasherDefault;
use std::hash::Hash;
use vstd::prelude::*;
use vstd::std_specs::hash::obeys_key_model;
use vstd::std_specs::hash::spec_hash_map_iter;
use vstd::std_specs::hash::EntrySpecFns;
use vstd::std_specs::iter::IteratorSpec;

verus! {

/// `fnv::FnvHasher`, the hasher state. Opaque.
#[verifier::external_type_specification]
#[verifier::external_body]
pub struct ExFnvHasher(FnvHasher);

/// `std::hash::BuildHasherDefault`, which builds a hasher by `Default`. Opaque.
#[verifier::external_type_specification]
#[verifier::external_body]
#[verifier::reject_recursive_types(H)]
pub struct ExBuildHasherDefault<H>(BuildHasherDefault<H>);

/// `HashMap::entry` on a map hashed with FNV. For a key type that obeys the
/// hash-table model, the entry is that of `key`, it holds the value that the
/// map had for `key`, and when the entry is done with the map has the entry's
/// last value for `key`, or no value if the entry was left vacant or emptied.
#[verifier::external_body]
pub(crate) fn entry_of<'a, K: Hash + Eq, V>(map: &'a mut FnvHashMap<K, V>, key: K) -> (entry: Entry<
    'a,
    K,
    V,
>)
    ensures
        obeys_key_model::<K>() ==> entry.spec_key() == key,
        obeys_key_model::<K>() ==> entry.value() == old(map)@.get(key),
        obeys_key_model::<K>() ==> final(map)@ == (match entry.final_value() {
            Some(value) => old(map)@.insert(key, value),
            None => old(map)@.remove(key),
        }),
{
    map.entry(key)
}

/// `HashMap::iter` on a map hashed with FNV. For a key type that obeys the
/// hash-table model, the iterator is the one that vstd describes for the map:
/// it yields every entry of the map once, in an order that is not fixed, and
/// then ends.
#[verifier::external_body]
pub(crate) fn iter_of<'a, K, V>(map: &'a FnvHashMap<K, V>) -> (iter: Iter<'a, K, V>)
    ensures
        obeys_key_model::<K>() ==> iter == spec_hash_map_iter(map),
        obeys_key_model::<K>() ==> iter.remaining().no_duplicates(),
        obeys_key_model::<K>() ==> iter.decrease() is Some,
        obeys_key_model::<K>() ==> iter.initial_value_relation(&iter),
{
    map.iter()
}

/// `HashMap::retain` on a map hashed with FNV. `keep` is run once on each
/// entry, with the value open to change; an entry stays, with the value as
/// `keep` left it, exactly if `keep` returned `true` for it. No entry is
/// added.
#[verifier::external_body]
pub(crate) fn retain_in<K, V, F: FnMut(&K, &mut V) -> bool>(map: &mut FnvHashMap<K, V>, keep: F)
    requires
        forall|key: &K, value: &mut V|
            old(map)@.contains_key(*key) && *value == old(map)@[*key] ==> #[trigger] call_requires(
                keep,
                (key, value),
            ),
    ensures
        obeys_key_model::<K>() ==> forall|key: K| #[trigger]
            final(map)@.contains_key(key) ==> old(map)@.contains_key(key),
        obeys_key_model::<K>() ==> forall|key: K| #[trigger]
            old(map)@.contains_key(key) ==> exists|value: &mut V|
                {
                    &&& *value == old(map)@[key]
                    &&& #[trigger] call_ensures(keep, (&key, value), final(map)@.contains_key(key))
                    &&& final(map)@.contains_key(key) ==> final(map)@[key] == *final(value)
                },
{
    map.retain(keep)
}

} // verus!
