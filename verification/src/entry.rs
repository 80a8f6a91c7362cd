//! The cache entry of one feed address.
//!
//! An entry holds its items ascending by publication time and unique by
//! link. No entry exists that does not: the constructors establish it and
//! nothing breaks it.

use crate::item::{clone_items, item_views, FeedItem, ItemView};
use crate::merge::{has_link, links_unique};
use crate::order::sorted_by_date;
use vstd::prelude::*;

verus! {

/// What the items of every cache entry satisfy: ascending by publication
/// time, and no link twice.
pub open spec fn well_formed(items: Seq<ItemView>) -> bool {
    sorted_by_date(items) && links_unique(items)
}

/// What a `CacheEntry` stands for.
pub struct EntryView {
    /// The feed's address, the key of the entry.
    pub address: Seq<char>,
    pub items: Seq<ItemView>,
    /// Seconds since the epoch of the last fetch attempt, whether it
    /// succeeded or not.
    pub last_refresh_attempt: int,
}

/// The cached record of one feed.
#[derive(Debug)]
pub struct CacheEntry {
    address: String,
    items: Vec<FeedItem>,
    last_refresh_attempt: i64,
}

impl View for CacheEntry {
    type V = EntryView;

    closed spec fn view(&self) -> EntryView {
        EntryView {
            address: self.address@,
            items: item_views(self.items@),
            last_refresh_attempt: self.last_refresh_attempt as int,
        }
    }
}

/// The view of an entry that may be absent.
pub open spec fn entry_view(entry: Option<CacheEntry>) -> Option<EntryView> {
    match entry {
        Some(e) => Some(e@),
        None => None,
    }
}

/// Whether the items are ascending by publication time.
fn is_sorted(items: &Vec<FeedItem>) -> (answer: bool)
    ensures
        answer == sorted_by_date(item_views(items@)),
{
    let ghost views = item_views(items@);
    let mut i: usize = 1;
    while i < items.len()
        invariant
            1 <= i,
            views == item_views(items@),
            forall|a: int, b: int|
                #![trigger views[a], views[b]]
                0 <= a <= b < i && b < views.len() ==> views[a].published_at
                    <= views[b].published_at,
        decreases items.len() - i,
    {
        if items[i - 1].published_at > items[i].published_at {
            assert(views[i - 1].published_at > views[i as int].published_at);
            return false;
        }
        assert forall|a: int, b: int|
            #![trigger views[a], views[b]]
            0 <= a <= b < i + 1 && b < views.len() implies views[a].published_at
                <= views[b].published_at by {
            if b == i && a < i {
                assert(views[a].published_at <= views[i - 1].published_at);
            }
        }
        i += 1;
    }
    true
}

/// Whether no two items share a link.
fn has_unique_links(items: &Vec<FeedItem>) -> (answer: bool)
    ensures
        answer == links_unique(item_views(items@)),
{
    let ghost views = item_views(items@);
    let mut j: usize = 0;
    while j < items.len()
        invariant
            j <= items.len(),
            views == item_views(items@),
            forall|a: int, b: int|
                #![trigger views[a], views[b]]
                0 <= a < b < j ==> views[a].link != views[b].link,
        decreases items.len() - j,
    {
        let mut i: usize = 0;
        while i < j
            invariant
                i <= j < items.len(),
                views == item_views(items@),
                forall|a: int| 0 <= a < i ==> (#[trigger] views[a]).link != views[j as int].link,
            decreases j - i,
        {
            if items[i].link == items[j].link {
                assert(views[i as int].link == views[j as int].link);
                return false;
            }
            i += 1;
        }
        j += 1;
    }
    true
}

impl CacheEntry {
    #[verifier::type_invariant]
    spec fn holds(&self) -> bool {
        well_formed(item_views(self.items@))
    }

    /// An entry without items, for an address that was never fetched.
    pub fn empty(address: String, last_refresh_attempt: i64) -> (entry: CacheEntry)
        ensures
            entry@ == (EntryView {
                address: address@,
                items: Seq::empty(),
                last_refresh_attempt: last_refresh_attempt as int,
            }),
    {
        let items: Vec<FeedItem> = Vec::new();
        assert(item_views(items@) =~= Seq::<ItemView>::empty());
        CacheEntry { address, items, last_refresh_attempt }
    }

    /// The entry with these parts, as when a stored record is read back.
    /// There is none where the items are out of order or share a link.
    pub fn restore(
        address: String,
        items: Vec<FeedItem>,
        last_refresh_attempt: i64,
    ) -> (entry: Option<CacheEntry>)
        ensures
            entry is Some <==> well_formed(item_views(items@)),
            entry matches Some(e) ==> e@ == (EntryView {
                address: address@,
                items: item_views(items@),
                last_refresh_attempt: last_refresh_attempt as int,
            }),
    {
        if is_sorted(&items) && has_unique_links(&items) {
            Some(CacheEntry { address, items, last_refresh_attempt })
        } else {
            None
        }
    }

    /// The entry with these parts, where the items are known to be in order
    /// and unique by link.
    pub(crate) fn assemble(
        address: String,
        items: Vec<FeedItem>,
        last_refresh_attempt: i64,
    ) -> (entry: CacheEntry)
        requires
            well_formed(item_views(items@)),
        ensures
            entry@ == (EntryView {
                address: address@,
                items: item_views(items@),
                last_refresh_attempt: last_refresh_attempt as int,
            }),
    {
        CacheEntry { address, items, last_refresh_attempt }
    }

    /// The feed's address.
    pub fn address(&self) -> (address: &String)
        ensures
            address@ == self@.address,
    {
        &self.address
    }

    /// The cached items: ascending by publication time, no link twice.
    pub fn items(&self) -> (items: &Vec<FeedItem>)
        ensures
            item_views(items@) == self@.items,
            well_formed(self@.items),
    {
        proof {
            use_type_invariant(self);
        }
        &self.items
    }

    /// When the feed was last fetched, or tried to be.
    pub fn last_refresh_attempt(&self) -> (last: i64)
        ensures
            last as int == self@.last_refresh_attempt,
    {
        self.last_refresh_attempt
    }

    /// The cached items, given up by the entry.
    pub fn into_items(self) -> (items: Vec<FeedItem>)
        ensures
            item_views(items@) == self@.items,
            well_formed(self@.items),
    {
        proof {
            use_type_invariant(&self);
        }
        self.items
    }

    /// A copy of the entry.
    pub fn duplicate(&self) -> (copy: CacheEntry)
        ensures
            copy@ == self@,
    {
        proof {
            use_type_invariant(self);
        }
        CacheEntry {
            address: self.address.clone(),
            items: clone_items(&self.items),
            last_refresh_attempt: self.last_refresh_attempt,
        }
    }

    /// Whether the entry holds an item with this link.
    pub fn has_link(&self, link: &String) -> (found: bool)
        ensures
            found == has_link(self@.items, link@),
    {
        crate::merge::contains_link(&self.items, link)
    }
}

} // verus!
