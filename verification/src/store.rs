//! Trusted interface to the concurrent cache store.
//!
//! The three stores (positive answers, negative answers, negative probes)
//! are `moka` caches with approximate, capacity-based eviction. Their
//! contents are modelled by a map from cache-key views to entry views; the
//! contracts here state only what `moka`'s documentation promises: a fresh
//! cache is empty, a hit returns a stored entry, and an insert adds the
//! entry while eviction may drop others (capacity enforcement is
//! approximate, so an insert is not guaranteed to stick).
use vstd::prelude::*;
use crate::cache::{CacheKey, CachedEntry};

verus! {

#[verifier::external_type_specification]
#[verifier::external_body]
#[verifier::reject_recursive_types(K)]
#[verifier::reject_recursive_types(V)]
#[verifier::reject_recursive_types(S)]
pub struct ExCache<K, V, S>(moka::sync::Cache<K, V, S>);

/// The view of a cache key: normalized name bytes, query type, DO bit.
pub type KeyView = (Seq<u8>, u16, bool);

/// The view of a cached entry: wire bytes, `expires_at`, `stale_until`.
pub type EntryView = (Seq<u8>, u64, u64);

/// What a store holds, as a map from key views to entry views.
pub uninterp spec fn store_contents(c: moka::sync::Cache<CacheKey, CachedEntry>) -> Map<
    KeyView,
    EntryView,
>;

/// Relies on `moka::sync::Cache::new`: a fresh cache holds nothing.
#[verifier::external_body]
pub(crate) fn store_new(capacity: u64) -> (c: moka::sync::Cache<CacheKey, CachedEntry>)
    ensures
        store_contents(c).dom() == Set::<KeyView>::empty(),
{
    moka::sync::Cache::new(capacity)
}

/// Relies on `moka::sync::Cache::get`: a hit is a clone of the entry stored
/// under the key. A miss says nothing, since eviction is approximate.
#[verifier::external_body]
pub(crate) fn store_get(c: &moka::sync::Cache<CacheKey, CachedEntry>, key: &CacheKey) -> (r: Option<
    CachedEntry,
>)
    ensures
        match r {
            Some(e) => store_contents(*c).contains_key(key@) && store_contents(*c)[key@] == e@,
            None => true,
        },
{
    c.get(key)
}

/// Relies on `moka::sync::Cache::insert`: the entry is stored under the key
/// and no other key changes its value, though the cache may evict entries
/// (including, at capacity, the new one) at any write.
#[verifier::external_body]
pub(crate) fn store_insert(c: &mut moka::sync::Cache<CacheKey, CachedEntry>, key: CacheKey, value: CachedEntry)
    ensures
        store_contents(*final(c)).submap_of(store_contents(*old(c)).insert(key@, value@)),
{
    c.insert(key, value)
}

} // verus!
