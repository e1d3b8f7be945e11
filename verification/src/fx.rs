//! The hash maps of the audio threads: `fxhash::FxHashMap`, std's `HashMap` with the fast
//! `FxHasher`, described by the map that each one holds.

use fxhash::FxHashMap;
use std::hash::Hash;
use vstd::prelude::*;
use vstd::std_specs::hash::obeys_key_model;

verus! {

/// The builder of the hashers of `FxHashMap`.
#[verifier::external_type_specification]
#[verifier::external_body]
#[verifier::reject_recursive_types(H)]
pub struct ExBuildHasherDefault<H>(std::hash::BuildHasherDefault<H>);

/// The hasher of `FxHashMap`.
#[verifier::external_type_specification]
#[verifier::external_body]
pub struct ExFxHasher(fxhash::FxHasher);

/// An empty map, with `FxHashMap::default`.
///
/// Trusted: the new map holds nothing.
#[verifier::external_body]
pub(crate) fn fx_new<K, V>() -> (r: FxHashMap<K, V>)
    ensures
        r@.dom() == Set::<K>::empty(),
{
    FxHashMap::default()
}

/// Insert a value, with `HashMap::insert`.
///
/// Trusted: for keys whose equality and hashing agree with spec equality, the map afterwards
/// holds `v` at `k` and is otherwise unchanged, and the value replaced at `k`, if any, is
/// returned; the map stays finite.
#[verifier::external_body]
pub(crate) fn fx_insert<K: Eq + Hash, V>(m: &mut FxHashMap<K, V>, k: K, v: V) -> (r: Option<V>)
    requires
        obeys_key_model::<K>(),
        old(m)@.dom().finite(),
    ensures
        final(m)@ == old(m)@.insert(k, v),
        final(m)@.dom().finite(),
        r == (if old(m)@.contains_key(k) { Some(old(m)@[k]) } else { None }),
{
    m.insert(k, v)
}

/// Remove a key, with `HashMap::remove`.
///
/// Trusted: for keys whose equality and hashing agree with spec equality, the map afterwards
/// lacks `k` and is otherwise unchanged, and the value removed, if any, is returned.
#[verifier::external_body]
pub(crate) fn fx_remove<K: Eq + Hash, V>(m: &mut FxHashMap<K, V>, k: &K) -> (r: Option<V>)
    requires
        obeys_key_model::<K>(),
        old(m)@.dom().finite(),
    ensures
        final(m)@ == old(m)@.remove(*k),
        final(m)@.dom().finite(),
        r == (if old(m)@.contains_key(*k) { Some(old(m)@[*k]) } else { None }),
{
    m.remove(k)
}

/// The value at a key, with `HashMap::get`.
///
/// Trusted: for keys whose equality and hashing agree with spec equality, the value held at `k`,
/// if any.
#[verifier::external_body]
pub(crate) fn fx_get<'a, K: Eq + Hash, V>(m: &'a FxHashMap<K, V>, k: &K) -> (r: Option<&'a V>)
    requires
        obeys_key_model::<K>(),
    ensures
        r == (if m@.contains_key(*k) { Some(&m@[*k]) } else { None }),
{
    m.get(k)
}

/// The number of entries, with `HashMap::len`.
///
/// Trusted: for keys whose equality and hashing agree with spec equality, the number of keys
/// of the map.
#[verifier::external_body]
pub(crate) fn fx_len<K: Eq + Hash, V>(m: &FxHashMap<K, V>) -> (r: usize)
    requires
        obeys_key_model::<K>(),
        m@.dom().finite(),
    ensures
        r == m@.len(),
{
    m.len()
}

/// Remove every entry, with `HashMap::clear`.
///
/// Trusted: the map afterwards holds nothing.
#[verifier::external_body]
pub(crate) fn fx_clear<K, V>(m: &mut FxHashMap<K, V>)
    ensures
        final(m)@.dom() == Set::<K>::empty(),
{
    m.clear()
}

/// The keys of the map, with `HashMap::keys`, copied into a vector.
///
/// Trusted: for keys whose equality and hashing agree with spec equality, each key of the map
/// once, in the order in which the map yields them (which is not stated).
#[verifier::external_body]
pub(crate) fn fx_keys<K: Copy + Eq + Hash, V>(m: &FxHashMap<K, V>) -> (r: Vec<K>)
    requires
        obeys_key_model::<K>(),
    ensures
        r@.to_set() == m@.dom(),
        r@.no_duplicates(),
{
    m.keys().copied().collect()
}

} // verus!
