//! When a cache entry has to be fetched again.

use crate::entry::{CacheEntry, EntryView};
use vstd::prelude::*;

verus! {

/// The age, in seconds, beyond which an entry is fetched again.
pub const DEFAULT_TTL: u64 = 600;

/// Whether an entry is stale at `now`: more than `ttl` seconds have passed
/// since its last refresh attempt. An address without an entry is always
/// stale.
pub open spec fn stale(entry: Option<EntryView>, now: int, ttl: int) -> bool {
    match entry {
        None => true,
        Some(e) => now - e.last_refresh_attempt > ttl,
    }
}

/// The view of an entry that may be absent, seen through a reference.
pub open spec fn seen(entry: Option<&CacheEntry>) -> Option<EntryView> {
    match entry {
        Some(e) => Some(e@),
        None => None,
    }
}

/// Decides whether an entry must be refreshed before it is served.
pub fn is_stale(entry: Option<&CacheEntry>, now: i64, ttl: u64) -> (answer: bool)
    ensures
        answer == stale(seen(entry), now as int, ttl as int),
{
    match entry {
        None => true,
        Some(e) => (now as i128) - (e.last_refresh_attempt() as i128) > (ttl as i128),
    }
}

} // verus!
