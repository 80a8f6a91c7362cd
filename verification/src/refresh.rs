//! What a fetch attempt makes of a cache entry.
//!
//! A successful fetch merges the document's entries into the cached items. A
//! failed one leaves the items as they are. Either way the entry records the
//! time of the attempt, so that a feed that cannot be reached is not asked
//! again at once, and either way only the entry of the address that was
//! fetched changes.

use crate::entry::{entry_view, well_formed, CacheEntry, EntryView};
use crate::fetch::{outcome_view, FetchError};
use crate::item::{item_views, FeedItem, ItemView, RawEntry, RawView};
use crate::merge::{
    has_link, lemma_merged_links, lemma_merged_retains, lemma_merged_sorted, lemma_merged_twice,
    lemma_merged_unique, merge, merged,
};
use crate::site::{parse_domain, site_of};
use crate::staleness::stale;
use vstd::prelude::*;

verus! {

/// The result of a refresh: the entry to store under the address, and the
/// failure of the fetch if it failed. The failure is to be reported, not
/// raised: the entry's items are what the reader gets either way.
#[derive(Debug)]
pub struct Refreshed {
    pub entry: CacheEntry,
    pub failure: Option<FetchError>,
}

/// The items that an entry has, none where there is no entry yet.
pub open spec fn items_of(entry: Option<EntryView>) -> Seq<ItemView> {
    match entry {
        Some(e) => e.items,
        None => Seq::empty(),
    }
}

/// The entry of `address` after a fetch attempt at `now`: the items merged
/// with the document's entries where the fetch succeeded, the items as they
/// were where it failed, and the attempt recorded.
pub open spec fn refreshed_entry(
    address: Seq<char>,
    prior: Option<EntryView>,
    outcome: Result<Seq<RawView>, FetchError>,
    site: Seq<char>,
    now: int,
) -> EntryView {
    EntryView {
        address: address,
        items: match outcome {
            Ok(entries) => merged(items_of(prior), entries, site, now),
            Err(_) => items_of(prior),
        },
        last_refresh_attempt: now,
    }
}

/// The failure that a fetch reports, if any.
pub open spec fn failure_of(outcome: Result<Seq<RawView>, FetchError>) -> Option<FetchError> {
    match outcome {
        Ok(_) => None,
        Err(e) => Some(e),
    }
}

/// The entry that may be absent, looked up in a store.
pub open spec fn lookup(store: Map<Seq<char>, EntryView>, address: Seq<char>) -> Option<
    EntryView,
> {
    if store.dom().contains(address) {
        Some(store[address])
    } else {
        None
    }
}

/// The store after the feed at `address` was refreshed and the entry that
/// `refresh` returns was put under the address.
pub open spec fn store_after(
    store: Map<Seq<char>, EntryView>,
    address: Seq<char>,
    outcome: Result<Seq<RawView>, FetchError>,
    now: int,
) -> Map<Seq<char>, EntryView> {
    store.insert(
        address,
        refreshed_entry(address, lookup(store, address), outcome, site_of(address), now),
    )
}

/// A refreshed entry is in order and unique by link where the entry before
/// was.
pub proof fn lemma_refreshed_well_formed(
    address: Seq<char>,
    prior: Option<EntryView>,
    outcome: Result<Seq<RawView>, FetchError>,
    site: Seq<char>,
    now: int,
)
    requires
        well_formed(items_of(prior)),
    ensures
        well_formed(refreshed_entry(address, prior, outcome, site, now).items),
{
    match outcome {
        Ok(entries) => {
            lemma_merged_sorted(items_of(prior), entries, site, now);
            lemma_merged_unique(items_of(prior), entries, site, now);
        },
        Err(_) => {},
    }
}

/// A refresh never loses an item: whatever the fetch gave, and whether or
/// not the document still has it, every item cached before is cached after,
/// and so is its link.
pub proof fn lemma_refresh_retains(
    address: Seq<char>,
    prior: Option<EntryView>,
    outcome: Result<Seq<RawView>, FetchError>,
    site: Seq<char>,
    now: int,
)
    ensures
        items_of(prior).to_multiset().subset_of(
            refreshed_entry(address, prior, outcome, site, now).items.to_multiset(),
        ),
        forall|i: int|
            0 <= i < items_of(prior).len() ==> refreshed_entry(
                address,
                prior,
                outcome,
                site,
                now,
            ).items.contains(#[trigger] items_of(prior)[i]),
        forall|link: Seq<char>| #[trigger]
            has_link(items_of(prior), link) ==> has_link(
                refreshed_entry(address, prior, outcome, site, now).items,
                link,
            ),
{
    match outcome {
        Ok(entries) => {
            lemma_merged_retains(items_of(prior), entries, site, now);
            assert forall|link: Seq<char>| #[trigger]
                has_link(items_of(prior), link) implies has_link(
                merged(items_of(prior), entries, site, now),
                link,
            ) by {
                lemma_merged_links(items_of(prior), entries, site, now, link);
            }
        },
        Err(_) => {
            assert forall|i: int| 0 <= i < items_of(prior).len() implies items_of(prior).contains(
                #[trigger] items_of(prior)[i],
            ) by {}
        },
    }
}

/// Refreshing twice from the same document makes no duplicate: the second
/// refresh leaves the items exactly as the first made them.
pub proof fn lemma_refresh_twice(
    address: Seq<char>,
    prior: Option<EntryView>,
    entries: Seq<RawView>,
    site: Seq<char>,
    now: int,
    later: int,
)
    ensures
        refreshed_entry(
            address,
            Some(refreshed_entry(address, prior, Ok(entries), site, now)),
            Ok(entries),
            site,
            later,
        ).items == refreshed_entry(address, prior, Ok(entries), site, now).items,
{
    lemma_merged_twice(items_of(prior), entries, site, now, site, later);
}

/// A failed fetch is isolated. The entry of the address keeps its items and
/// records the attempt; the entry of every other address is untouched.
pub proof fn lemma_failure_isolated(
    store: Map<Seq<char>, EntryView>,
    address: Seq<char>,
    other: Seq<char>,
    failure: FetchError,
    now: int,
)
    requires
        other != address,
    ensures
        lookup(store_after(store, address, Err(failure), now), other) == lookup(store, other),
        lookup(store_after(store, address, Err(failure), now), address) is Some,
        items_of(lookup(store_after(store, address, Err(failure), now), address)) == items_of(
            lookup(store, address),
        ),
        store_after(store, address, Err(failure), now)[address].last_refresh_attempt == now,
{
}

/// Whatever a fetch gave, the refresh of one address leaves the entries of
/// all others as they were.
pub proof fn lemma_refresh_touches_one_address(
    store: Map<Seq<char>, EntryView>,
    address: Seq<char>,
    other: Seq<char>,
    outcome: Result<Seq<RawView>, FetchError>,
    now: int,
)
    requires
        other != address,
    ensures
        lookup(store_after(store, address, outcome, now), other) == lookup(store, other),
{
}

/// The time of the last attempt never goes back: a refresh of a stale entry
/// moves it forward.
pub proof fn lemma_attempt_advances(
    address: Seq<char>,
    prior: EntryView,
    outcome: Result<Seq<RawView>, FetchError>,
    site: Seq<char>,
    now: int,
    ttl: int,
)
    requires
        0 <= ttl,
        stale(Some(prior), now, ttl),
    ensures
        refreshed_entry(address, Some(prior), outcome, site, now).last_refresh_attempt
            > prior.last_refresh_attempt,
{
}

/// A refreshed entry is not stale until more than `ttl` seconds have passed
/// since the attempt.
pub proof fn lemma_refreshed_is_fresh(
    address: Seq<char>,
    prior: Option<EntryView>,
    outcome: Result<Seq<RawView>, FetchError>,
    site: Seq<char>,
    now: int,
    later: int,
    ttl: int,
)
    requires
        later - now <= ttl,
    ensures
        !stale(Some(refreshed_entry(address, prior, outcome, site, now)), later, ttl),
{
}

/// Applies the outcome of a fetch attempt made at `now` to the entry of
/// `address`, for a feed whose site is `site`. `prior` is the entry as
/// stored, `None` where the address was never fetched.
pub fn refresh_with_site(
    address: &String,
    prior: Option<CacheEntry>,
    outcome: Result<Vec<RawEntry>, FetchError>,
    site: &String,
    now: i64,
) -> (done: Refreshed)
    ensures
        done.entry@ == refreshed_entry(
            address@,
            entry_view(prior),
            outcome_view(outcome),
            site@,
            now as int,
        ),
        done.failure == failure_of(outcome_view(outcome)),
{
    let existing: Vec<FeedItem> = match prior {
        Some(entry) => entry.into_items(),
        None => Vec::new(),
    };
    assert(item_views(existing@) =~= items_of(entry_view(prior)));
    match outcome {
        Ok(entries) => {
            proof {
                lemma_refreshed_well_formed(
                    address@,
                    entry_view(prior),
                    outcome_view(outcome),
                    site@,
                    now as int,
                );
            }
            let items = merge(existing, &entries, site, now);
            Refreshed { entry: CacheEntry::assemble(address.clone(), items, now), failure: None }
        },
        Err(failure) => Refreshed {
            entry: CacheEntry::assemble(address.clone(), existing, now),
            failure: Some(failure),
        },
    }
}

/// Applies the outcome of a fetch attempt made at `now` to the entry of
/// `address`. New items take the site that the address names.
pub fn refresh(
    address: &String,
    prior: Option<CacheEntry>,
    outcome: Result<Vec<RawEntry>, FetchError>,
    now: i64,
) -> (done: Refreshed)
    ensures
        done.entry@ == refreshed_entry(
            address@,
            entry_view(prior),
            outcome_view(outcome),
            site_of(address@),
            now as int,
        ),
        done.failure == failure_of(outcome_view(outcome)),
{
    let site = parse_domain(address);
    refresh_with_site(address, prior, outcome, &site, now)
}

} // verus!
