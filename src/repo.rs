//! The cache of the latest snapshot of each arena: bounded in size, and each
//! entry expires a fixed time after it was put.

use std::sync::Arc;
use std::time::Duration;

use moka::sync::Cache;
use vstd::prelude::*;

use crate::arena::{ArenaFull, ArenaId};

verus! {

/// How many arenas the cache holds at most.
pub const MAX_ARENAS: u64 = 4096;

/// How long a snapshot stays in the cache after it was put, in milliseconds.
pub const TIME_TO_LIVE_MS: u64 = 15000;

/// moka's `sync::Cache`, a concurrent cache with a bounded size and expiring
/// entries; what it holds at a given moment is not modelled.
#[verifier::external_type_specification]
#[verifier::external_body]
#[verifier::reject_recursive_types(K)]
#[verifier::reject_recursive_types(V)]
#[verifier::reject_recursive_types(S)]
pub struct ExCache<K, V, S>(Cache<K, V, S>);

/// The longest time to live moka accepts: 1000 years, in milliseconds.
pub const MAX_TIME_TO_LIVE_MS: u64 = 31_536_000_000_000;

/// The number of entries a cache was built to hold at most, as moka's
/// `Policy::max_capacity` reports it.
pub uninterp spec fn cache_max_capacity(cache: Cache<ArenaId, Arc<ArenaFull>>) -> u64;

/// The time to live of a cache's entries, in milliseconds, as moka's
/// `Policy::time_to_live` reports it.
pub uninterp spec fn cache_time_to_live_ms(cache: Cache<ArenaId, Arc<ArenaFull>>) -> u64;

/// Relies on moka's `CacheBuilder`: a cache of at most `max_capacity`
/// entries, each of which expires `time_to_live_ms` after its insertion;
/// `build` panics on a time to live over 1000 years.
#[verifier::external_body]
fn build_cache(max_capacity: u64, time_to_live_ms: u64) -> (cache: Cache<ArenaId, Arc<ArenaFull>>)
    requires
        time_to_live_ms <= MAX_TIME_TO_LIVE_MS,
    ensures
        cache_max_capacity(cache) == max_capacity,
        cache_time_to_live_ms(cache) == time_to_live_ms,
{
    Cache::builder().max_capacity(max_capacity).time_to_live(
        Duration::from_millis(time_to_live_ms),
    ).build()
}

/// Relies on moka's `Cache::get`: a clone of the value held for the key,
/// if it is there and has not expired; nothing more is promised, as entries
/// expire with time and other threads may put into the cache meanwhile.
#[verifier::external_body]
fn cache_get(cache: &Cache<ArenaId, Arc<ArenaFull>>, id: &ArenaId) -> Option<Arc<ArenaFull>> {
    cache.get(id)
}

/// Relies on moka's `Cache::insert`: the value is put under the key, in
/// place of any earlier one. A snapshot is only ever put under its own id.
#[verifier::external_body]
fn cache_insert(cache: &Cache<ArenaId, Arc<ArenaFull>>, id: ArenaId, full: Arc<ArenaFull>)
    requires
        id.0@ == full.id.0@,
{
    cache.insert(id, full)
}

/// Relies on moka's `Cache::entry_count`: an estimate of the number of
/// entries.
#[verifier::external_body]
fn cache_entry_count(cache: &Cache<ArenaId, Arc<ArenaFull>>) -> u64 {
    cache.entry_count()
}

/// The latest snapshot of each arena, shared by the ingestion loop that puts
/// them and the readers that get them.
pub struct Repo {
    cache: Cache<ArenaId, Arc<ArenaFull>>,
}

/// What a lookup of arena `id` may hand out of what the cache gave: the
/// snapshot found, only when it is one of that arena.
pub fn only_of_arena(found: Option<Arc<ArenaFull>>, id: &ArenaId) -> (r: Option<Arc<ArenaFull>>)
    ensures
        r == (if found is Some && found->0.id.0@ == id.0@ {
            found
        } else {
            None
        }),
{
    match found {
        Some(full) => if full.id.0 == id.0 {
            Some(full)
        } else {
            None
        },
        None => None,
    }
}

impl Repo {
    /// The number of arenas this cache was built to hold at most.
    pub closed spec fn max_arenas(&self) -> u64 {
        cache_max_capacity(self.cache)
    }

    /// How long an entry of this cache lives after it was put, in
    /// milliseconds.
    pub closed spec fn time_to_live_ms(&self) -> u64 {
        cache_time_to_live_ms(self.cache)
    }

    /// A cache of up to `MAX_ARENAS` arenas whose entries live
    /// `TIME_TO_LIVE_MS`.
    pub fn new() -> (r: Repo)
        ensures
            r.max_arenas() == MAX_ARENAS,
            r.time_to_live_ms() == TIME_TO_LIVE_MS,
    {
        Repo::with_limits(MAX_ARENAS, TIME_TO_LIVE_MS)
    }

    /// A cache of up to `max_arenas` arenas whose entries live
    /// `time_to_live_ms` milliseconds from the moment they were put; at most
    /// 1000 years.
    pub fn with_limits(max_arenas: u64, time_to_live_ms: u64) -> (r: Repo)
        requires
            time_to_live_ms <= MAX_TIME_TO_LIVE_MS,
        ensures
            r.max_arenas() == max_arenas,
            r.time_to_live_ms() == time_to_live_ms,
    {
        Repo { cache: build_cache(max_arenas, time_to_live_ms) }
    }

    /// The latest snapshot of arena `id`, unless it is absent or expired. A
    /// snapshot returned is always one of that arena.
    pub fn get(&self, id: ArenaId) -> (r: Option<Arc<ArenaFull>>)
        ensures
            r matches Some(full) ==> full.id.0@ == id.0@,
    {
        only_of_arena(cache_get(&self.cache, &id), &id)
    }

    /// Puts `full` as the latest snapshot of its arena, in place of any
    /// earlier one.
    pub fn put(&self, full: ArenaFull) {
        let id = ArenaId(full.id.0.clone());
        cache_insert(&self.cache, id, Arc::new(full));
    }

    /// About how many arenas the cache holds.
    pub fn entry_count(&self) -> u64 {
        cache_entry_count(&self.cache)
    }
}

} // verus!
