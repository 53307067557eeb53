//! Tiered cache policy: per-resource-class TTLs, namespaced keys, and the
//! decision a cached read follows — serve a hit as-is; on a miss serve the
//! backing store's bytes and write them back best-effort, so a cache-write
//! failure can never fail the read it came from.

use vstd::prelude::*;
use vstd::string::{StringExecFns};

verus! {

/// Catalog documents point at the live version, so they stay fresh.
pub const CATALOG_CACHE_TTL: u64 = 300;

/// Collection documents list shard membership, so they stay fresh too.
pub const COLLECTION_CACHE_TTL: u64 = 300;

/// Shard binaries live under a version token, so the version changing —
/// not TTL expiry — is what invalidates them; they may live long.
pub const SHARD_CACHE_TTL: u64 = 3600;

/// The fixed prefix beneath which every cache key is namespaced, keeping
/// these entries apart from anything else the cache holds.
pub const CACHE_PREFIX: &'static str = "https://geocoder.cache.internal/__cache/";

/// The three classes of cached resources.
pub enum ResourceClass {
    Catalog,
    Collection,
    ShardBinary,
}

/// The TTL of a resource class, in seconds.
pub open spec fn spec_ttl_for(class: ResourceClass) -> u64 {
    match class {
        ResourceClass::Catalog => CATALOG_CACHE_TTL,
        ResourceClass::Collection => COLLECTION_CACHE_TTL,
        ResourceClass::ShardBinary => SHARD_CACHE_TTL,
    }
}

pub fn ttl_for(class: &ResourceClass) -> (t: u64)
    ensures
        t == spec_ttl_for(*class),
{
    match class {
        ResourceClass::Catalog => CATALOG_CACHE_TTL,
        ResourceClass::Collection => COLLECTION_CACHE_TTL,
        ResourceClass::ShardBinary => SHARD_CACHE_TTL,
    }
}

/// The cache key of a resource path: the path beneath the fixed prefix.
pub fn cache_key(key: &str) -> (r: String)
    ensures
        r@ == CACHE_PREFIX@ + key@,
{
    let s = String::from_str(CACHE_PREFIX);
    s.concat(key)
}

/// What a cached read does once both lookups are in hand: the bytes to
/// serve (if any), and the bytes to write back with their TTL (if any).
pub struct CacheReadPlan {
    /// What the caller is served; `None` means the resource is absent.
    pub serve: Option<Vec<u8>>,
    /// A best-effort write-back: bytes and TTL seconds. Failing to perform
    /// it must not fail the read.
    pub store: Option<(Vec<u8>, u64)>,
}

/// Decide a cached read. A cache hit is served as-is and stores nothing; a
/// miss serves what the backing store returned and schedules a write-back
/// under the class's TTL; when both miss, the resource is absent.
pub fn resolve_cached_read(
    class: &ResourceClass,
    cached: Option<Vec<u8>>,
    fetched: Option<Vec<u8>>,
) -> (plan: CacheReadPlan)
    ensures
        match cached {
            Some(bytes) => plan.serve == Some(bytes) && plan.store is None,
            None => match fetched {
                Some(bytes) => plan.serve == Some(bytes) && match plan.store {
                    Some(st) => st.0@ == bytes@ && st.1 == spec_ttl_for(*class),
                    None => false,
                },
                None => plan.serve is None && plan.store is None,
            },
        },
{
    match cached {
        Some(bytes) => CacheReadPlan { serve: Some(bytes), store: None },
        None => match fetched {
            Some(bytes) => {
                let ttl = ttl_for(class);
                let mut copy: Vec<u8> = Vec::new();
                let mut i: usize = 0;
                while i < bytes.len()
                    invariant
                        0 <= i <= bytes@.len(),
                        copy@ == bytes@.take(i as int),
                    decreases bytes@.len() - i,
                {
                    copy.push(bytes[i]);
                    proof {
                        assert(copy@ =~= bytes@.take(i as int + 1));
                    }
                    i += 1;
                }
                proof {
                    assert(bytes@.take(bytes@.len() as int) =~= bytes@);
                }
                CacheReadPlan { serve: Some(bytes), store: Some((copy, ttl)) }
            },
            None => CacheReadPlan { serve: None, store: None },
        },
    }
}

} // verus!
