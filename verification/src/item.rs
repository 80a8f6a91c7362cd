//! Feed items and the entries of a fetched document, with their views.

use vstd::prelude::*;

verus! {

/// One item of a feed as it is cached and served.
#[derive(Debug, PartialEq, Eq)]
pub struct FeedItem {
    /// Seconds since the epoch (UTC); items are ordered by it.
    pub published_at: i64,
    pub title: String,
    /// The key by which an item is recognised within its feed.
    pub link: String,
    /// The domain of the feed's own address.
    pub site: String,
}

/// What a `FeedItem` stands for.
pub struct ItemView {
    pub published_at: int,
    pub title: Seq<char>,
    pub link: Seq<char>,
    pub site: Seq<char>,
}

impl View for FeedItem {
    type V = ItemView;

    open spec fn view(&self) -> ItemView {
        ItemView {
            published_at: self.published_at as int,
            title: self.title@,
            link: self.link@,
            site: self.site@,
        }
    }
}

impl Clone for FeedItem {
    fn clone(&self) -> (copy: FeedItem)
        ensures
            copy@ == self@,
    {
        FeedItem {
            published_at: self.published_at,
            title: self.title.clone(),
            link: self.link.clone(),
            site: self.site.clone(),
        }
    }
}

/// The views of a sequence of items, in order.
pub open spec fn item_views(items: Seq<FeedItem>) -> Seq<ItemView> {
    items.map_values(|item: FeedItem| item@)
}

/// One entry of a fetched document: a title, a link, and the publication time
/// if the document gave one.
#[derive(Debug, PartialEq, Eq)]
pub struct RawEntry {
    pub title: String,
    pub link: String,
    pub published: Option<i64>,
}

/// What a `RawEntry` stands for.
pub struct RawView {
    pub title: Seq<char>,
    pub link: Seq<char>,
    pub published: Option<int>,
}

impl View for RawEntry {
    type V = RawView;

    open spec fn view(&self) -> RawView {
        RawView {
            title: self.title@,
            link: self.link@,
            published: match self.published {
                Some(t) => Some(t as int),
                None => None,
            },
        }
    }
}

/// The views of a sequence of raw entries, in order.
pub open spec fn raw_views(entries: Seq<RawEntry>) -> Seq<RawView> {
    entries.map_values(|entry: RawEntry| entry@)
}

/// A copy of `items`, item by item.
pub fn clone_items(items: &Vec<FeedItem>) -> (copy: Vec<FeedItem>)
    ensures
        item_views(copy@) == item_views(items@),
{
    let mut copy: Vec<FeedItem> = Vec::new();
    let mut i: usize = 0;
    while i < items.len()
        invariant
            i <= items.len(),
            copy.len() == i,
            forall|k: int| 0 <= k < i ==> copy[k]@ == items[k]@,
        decreases items.len() - i,
    {
        copy.push(items[i].clone());
        i += 1;
    }
    assert(item_views(copy@) =~= item_views(items@));
    copy
}

} // verus!
