use fxhash::{FxHashMap, FxHasher};
use std::hash::BuildHasherDefault;
use vstd::prelude::*;

verus! {

/// The hasher of `fxhash`.
#[verifier::external_type_specification]
#[verifier::external_body]
pub struct ExFxHasher(FxHasher);

/// The builder that makes hashers of type `H` with `Default`.
#[verifier::external_type_specification]
#[verifier::external_body]
#[verifier::reject_recursive_types(H)]
pub struct ExBuildHasherDefault<H>(BuildHasherDefault<H>);

/// Values of searched positions, keyed by the moves that lead to them.
pub type Cache = FxHashMap<u128, i64>;

/// An empty cache (`Default::default` for a `HashMap` with the `fxhash` hasher).
/// Claimed: it holds no entry.
#[verifier::external_body]
pub(crate) fn new_cache() -> (res: Cache)
    ensures
        res@.dom() == Set::<u128>::empty(),
{
    FxHashMap::default()
}

/// `HashMap::insert` on the cache. Claimed, as `std` documents it for keys whose `Hash` and
/// `Eq` agree (true of `u128` with the deterministic `fxhash` hasher): afterwards `key` maps
/// to `value` and every other entry is unchanged.
#[verifier::external_body]
pub(crate) fn cache_insert(cache: &mut Cache, key: u128, value: i64)
    ensures
        final(cache)@ == old(cache)@.insert(key, value),
{
    cache.insert(key, value);
}

/// `HashMap::get` on the cache. Claimed: the value stored under `key`, if there is one.
#[verifier::external_body]
pub(crate) fn cache_get(cache: &Cache, key: u128) -> (res: Option<i64>)
    ensures
        res == (if cache@.contains_key(key) { Some(cache@[key]) } else { None::<i64> }),
{
    match cache.get(&key) {
        Some(v) => Some(*v),
        None => None,
    }
}

} // verus!
