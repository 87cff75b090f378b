//! The operations on `FxHashMap`s with integer keys that the library uses:
//! std's `HashMap` driven by fxhash's deterministic hasher.
use vstd::prelude::*;

use fxhash::FxHashMap;

verus! {

/// fxhash's hasher, declared so that `FxHashMap` can stand in signatures;
/// it is only ever used inside the maps.
#[verifier::external_type_specification]
#[verifier::external_body]
pub struct ExFxHasher(fxhash::FxHasher);

/// std's `BuildHasherDefault`, through which `FxHashMap` builds its hashers.
#[verifier::external_type_specification]
#[verifier::external_body]
#[verifier::reject_recursive_types(H)]
pub struct ExBuildHasherDefault<H>(std::hash::BuildHasherDefault<H>);

/// Relies on `HashMap::default` with fxhash's `FxBuildHasher`: a new map is empty.
#[verifier::external_body]
pub(crate) fn fx_new<V>() -> (m: FxHashMap<u64, V>)
    ensures
        m@.dom().is_empty(),
{
    FxHashMap::default()
}

/// Relies on `HashMap::len`: the number of keys.
#[verifier::external_body]
pub(crate) fn fx_len<V>(m: &FxHashMap<u64, V>) -> (r: usize)
    ensures
        r == m@.len(),
{
    m.len()
}

/// Relies on `HashMap::get` with fxhash's deterministic hasher: the value under the key.
#[verifier::external_body]
pub(crate) fn fx_get<V>(m: &FxHashMap<u64, V>, k: u64) -> (r: Option<&V>)
    ensures
        r is Some <==> m@.contains_key(k),
        r matches Some(v) ==> *v == m@[k],
{
    m.get(&k)
}

/// Relies on `HashMap::insert` with fxhash's deterministic hasher: the key now maps to the value.
#[verifier::external_body]
pub(crate) fn fx_insert<V>(m: &mut FxHashMap<u64, V>, k: u64, v: V)
    ensures
        final(m)@ == old(m)@.insert(k, v),
{
    m.insert(k, v);
}

/// Relies on `HashMap::get_mut` with fxhash's deterministic hasher: a borrow of the value under the key.
#[verifier::external_body]
pub(crate) fn fx_get_mut<V>(m: &mut FxHashMap<u64, V>, k: u64) -> (r: Option<&mut V>)
    ensures
        r is Some <==> old(m)@.contains_key(k),
        r matches Some(v) ==> *v == old(m)@[k] && final(m)@ == old(m)@.insert(k, *final(v)),
        r is None ==> final(m)@ == old(m)@,
{
    m.get_mut(&k)
}

/// Relies on `HashMap::remove` with fxhash's deterministic hasher: the key is gone and its value handed out.
#[verifier::external_body]
pub(crate) fn fx_remove<V>(m: &mut FxHashMap<u64, V>, k: u64) -> (r: Option<V>)
    ensures
        final(m)@ == old(m)@.remove(k),
        r is Some <==> old(m)@.contains_key(k),
        r matches Some(v) ==> v == old(m)@[k],
{
    m.remove(&k)
}

/// Relies on `HashMap::clear`: no key is left.
#[verifier::external_body]
pub(crate) fn fx_clear<V>(m: &mut FxHashMap<u64, V>)
    ensures
        final(m)@.dom().is_empty(),
{
    m.clear();
}

/// Relies on `HashMap::keys`: each key once, in some order.
#[verifier::external_body]
pub(crate) fn fx_keys<V>(m: &FxHashMap<u64, V>) -> (r: Vec<u64>)
    ensures
        r@.no_duplicates(),
        r@.to_set() == m@.dom(),
        r@.len() == m@.len(),
{
    m.keys().copied().collect()
}

} // verus!
