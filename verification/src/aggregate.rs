//! One page out of several feeds.

use crate::item::{item_views, FeedItem, ItemView};
use crate::order::{
    lemma_stable_sort_keeps_items, lemma_stable_sort_len, lemma_stable_sort_sorted, sort_by_date,
    stable_sort,
};
use vstd::prelude::*;

verus! {

/// The views of the items of several feeds, feed by feed.
pub open spec fn feed_views(feeds: Seq<Vec<FeedItem>>) -> Seq<Seq<ItemView>> {
    feeds.map_values(|feed: Vec<FeedItem>| item_views(feed@))
}

/// Descending by publication time.
pub open spec fn newest_first(items: Seq<ItemView>) -> bool {
    forall|i: int, j: int|
        #![trigger items[i], items[j]]
        0 <= i <= j < items.len() ==> items[i].published_at >= items[j].published_at
}

/// The page that several feeds make: all their items, the latest first. Items
/// of equal time come in the reverse of the order in which the feeds gave
/// them.
pub open spec fn page(feeds: Seq<Seq<ItemView>>) -> Seq<ItemView> {
    stable_sort(feeds.flatten()).reverse()
}

/// The page is descending by publication time.
pub proof fn lemma_page_newest_first(feeds: Seq<Seq<ItemView>>)
    ensures
        newest_first(page(feeds)),
{
    let sorted = stable_sort(feeds.flatten());
    let turned = page(feeds);
    lemma_stable_sort_sorted(feeds.flatten());
    assert forall|i: int, j: int|
        #![trigger turned[i], turned[j]]
        0 <= i <= j < turned.len() implies turned[i].published_at >= turned[j].published_at by {
        assert(turned[i] == sorted[sorted.len() - 1 - i]);
        assert(turned[j] == sorted[sorted.len() - 1 - j]);
    }
}

/// The page holds the items of the feeds and no others, each as often as the
/// feeds hold it: nothing is dropped, and nothing is merged across feeds.
pub proof fn lemma_page_keeps_items(feeds: Seq<Seq<ItemView>>)
    ensures
        page(feeds).to_multiset() == feeds.flatten().to_multiset(),
        page(feeds).len() == feeds.flatten().len(),
{
    lemma_stable_sort_keeps_items(feeds.flatten());
    lemma_stable_sort_len(feeds.flatten());
    stable_sort(feeds.flatten()).lemma_reverse_to_multiset();
}

/// The items in reverse order.
fn reversed(items: Vec<FeedItem>) -> (turned: Vec<FeedItem>)
    ensures
        item_views(turned@) == item_views(items@).reverse(),
{
    let ghost start = item_views(items@);
    let mut items = items;
    let mut turned: Vec<FeedItem> = Vec::new();
    while items.len() > 0
        invariant
            items.len() + turned.len() == start.len(),
            item_views(items@) == start.take(items.len() as int),
            forall|k: int|
                0 <= k < turned.len() ==> (#[trigger] turned[k])@ == start[start.len() - 1 - k],
        decreases items.len(),
    {
        let ghost before = item_views(items@);
        let last = items.pop();
        match last {
            Some(item) => {
                assert(item@ == before[before.len() - 1]);
                turned.push(item);
                assert(item_views(items@) =~= start.take(items.len() as int));
            },
            None => {},
        }
    }
    assert(item_views(turned@) =~= start.reverse());
    turned
}

/// Makes one page of the items of several feeds: all items of all feeds, the
/// latest first.
///
/// Each feed comes with its own items as its cache entry holds them; the page
/// only concatenates and orders. Items of equal publication time come in the
/// reverse of the order in which they were handed in.
pub fn user_page(feeds: Vec<Vec<FeedItem>>) -> (items: Vec<FeedItem>)
    ensures
        item_views(items@) == page(feed_views(feeds@)),
{
    let ghost start = feed_views(feeds@);
    let mut feeds = feeds;
    let mut all: Vec<FeedItem> = Vec::new();
    assert(item_views(all@) + start.flatten() =~= start.flatten());
    while feeds.len() > 0
        invariant
            item_views(all@) + feed_views(feeds@).flatten() == start.flatten(),
        decreases feeds.len(),
    {
        let ghost before = item_views(all@);
        let ghost rest = feed_views(feeds@);
        let mut feed = feeds.remove(0);
        assert(feed_views(feeds@) =~= rest.drop_first());
        assert(item_views(feed@) == rest.first());
        all.append(&mut feed);
        assert(item_views(all@) =~= before + rest.first());
        assert(item_views(all@) + rest.drop_first().flatten() =~= before + rest.flatten());
    }
    assert(item_views(all@) =~= start.flatten());
    sort_by_date(&mut all);
    reversed(all)
}

} // verus!
