//! Maps with integer keys and the fast, unseeded hasher.

use vstd::prelude::*;

use rustc_hash::FxHashMap;

verus! {

#[verifier::external_type_specification]
#[verifier::external_body]
pub struct ExFxBuildHasher(rustc_hash::FxBuildHasher);

/// `rustc_hash::FxHashMap::default`: a map without entries.
#[verifier::external_body]
pub(crate) fn fx_new<V>() -> (r: FxHashMap<u64, V>)
    ensures
        r@.dom() == Set::<u64>::empty(),
{
    FxHashMap::default()
}

/// `rustc_hash::FxHashMap::get`: what is stored under `key`, if anything is.
#[verifier::external_body]
pub(crate) fn fx_get<V: Copy>(m: &FxHashMap<u64, V>, key: u64) -> (r: Option<V>)
    ensures
        r is Some == m@.dom().contains(key),
        r is Some ==> r->0 == m@[key],
{
    m.get(&key).copied()
}

/// `rustc_hash::FxHashMap::insert`: `key` is mapped to `to`, and every other key
/// to what it was.
#[verifier::external_body]
pub(crate) fn fx_insert<V>(m: &mut FxHashMap<u64, V>, key: u64, to: V)
    ensures
        final(m)@ == old(m)@.insert(key, to),
{
    m.insert(key, to);
}

/// `rustc_hash::FxHashMap::clone`, on entries that are copied bit for bit: the
/// same entries.
#[verifier::external_body]
pub(crate) fn fx_clone<V: Copy>(m: &FxHashMap<u64, V>) -> (r: FxHashMap<u64, V>)
    ensures
        r@ == m@,
{
    m.clone()
}

} // verus!
