//! Merging the entries of a fetched document into the items already cached.
//!
//! The cache only grows: an item once seen stays, whatever later documents
//! hold. An entry is new when no item has its link yet; the result is ordered
//! by publication time, and items of equal time keep the order in which they
//! came.

use crate::item::{item_views, raw_views, FeedItem, ItemView, RawEntry, RawView};
use crate::order::{
    insertion_point, lemma_insertion_point_bounds, lemma_stable_sort_idempotent,
    lemma_stable_sort_keeps_items, lemma_stable_sort_sorted, sort_by_date, sorted_by_date,
    stable_sort,
};
use vstd::prelude::*;

verus! {

/// Some item has this link.
pub open spec fn has_link(items: Seq<ItemView>, link: Seq<char>) -> bool {
    exists|i: int| 0 <= i < items.len() && (#[trigger] items[i]).link == link
}

/// No two items share a link.
pub open spec fn links_unique(items: Seq<ItemView>) -> bool {
    forall|i: int, j: int|
        #![trigger items[i], items[j]]
        0 <= i < j < items.len() ==> items[i].link != items[j].link
}

/// The item that a raw entry becomes: it takes the feed's site, and the
/// current time where the document gave no publication time.
pub open spec fn item_from(entry: RawView, site: Seq<char>, now: int) -> ItemView {
    ItemView {
        published_at: match entry.published {
            Some(t) => t,
            None => now,
        },
        title: entry.title,
        link: entry.link,
        site: site,
    }
}

/// `items` followed by the entries whose link was not seen before, each as an
/// item, in the order of the document. Of two entries with one link the first
/// counts.
pub open spec fn with_new_entries(
    items: Seq<ItemView>,
    entries: Seq<RawView>,
    site: Seq<char>,
    now: int,
) -> Seq<ItemView>
    decreases entries.len(),
{
    if entries.len() == 0 {
        items
    } else {
        let before = with_new_entries(items, entries.drop_last(), site, now);
        if has_link(before, entries.last().link) {
            before
        } else {
            before.push(item_from(entries.last(), site, now))
        }
    }
}

/// The cached items after a document's entries were merged in.
pub open spec fn merged(
    existing: Seq<ItemView>,
    entries: Seq<RawView>,
    site: Seq<char>,
    now: int,
) -> Seq<ItemView> {
    stable_sort(with_new_entries(existing, entries, site, now))
}

/// Some entry of the document has this link.
pub open spec fn offers_link(entries: Seq<RawView>, link: Seq<char>) -> bool {
    exists|k: int| 0 <= k < entries.len() && (#[trigger] entries[k]).link == link
}

/// The links after an item was put in are the links before and the item's.
pub proof fn lemma_insert_links(items: Seq<ItemView>, p: int, item: ItemView, link: Seq<char>)
    requires
        0 <= p <= items.len(),
    ensures
        has_link(items.insert(p, item), link) <==> has_link(items, link) || item.link == link,
{
    let out = items.insert(p, item);
    if has_link(out, link) {
        let i = choose|i: int| 0 <= i < out.len() && (#[trigger] out[i]).link == link;
        if i < p {
            assert(items[i].link == link);
        } else if i > p {
            assert(items[i - 1].link == link);
        }
    }
    if has_link(items, link) {
        let k = choose|k: int| 0 <= k < items.len() && (#[trigger] items[k]).link == link;
        if k < p {
            assert(out[k].link == link);
        } else {
            assert(out[k + 1].link == link);
        }
    }
    if item.link == link {
        assert(out[p].link == link);
    }
}

/// Links stay unique when an item is put in exactly if its link is new.
pub proof fn lemma_insert_unique(items: Seq<ItemView>, p: int, item: ItemView)
    requires
        0 <= p <= items.len(),
    ensures
        links_unique(items.insert(p, item)) <==> links_unique(items) && !has_link(
            items,
            item.link,
        ),
{
    let out = items.insert(p, item);
    let back = |i: int| if i < p { i } else { i - 1 };
    let forth = |k: int| if k < p { k } else { k + 1 };
    if links_unique(items) && !has_link(items, item.link) {
        assert forall|i: int, j: int|
            #![trigger out[i], out[j]]
            0 <= i < j < out.len() implies out[i].link != out[j].link by {
            if i != p {
                assert(out[i] == items[back(i)]);
            }
            if j != p {
                assert(out[j] == items[back(j)]);
            }
        }
    }
    if links_unique(out) {
        assert forall|i: int, j: int|
            #![trigger items[i], items[j]]
            0 <= i < j < items.len() implies items[i].link != items[j].link by {
            assert(out[forth(i)] == items[i]);
            assert(out[forth(j)] == items[j]);
        }
        if has_link(items, item.link) {
            let k = choose|k: int| 0 <= k < items.len() && (#[trigger] items[k]).link == item.link;
            assert(out[forth(k)] == items[k]);
            assert(out[p] == item);
            if forth(k) < p {
                assert(out[forth(k)].link != out[p].link);
            } else {
                assert(out[p].link != out[forth(k)].link);
            }
        }
    }
}

/// Sorting changes no link: a link is there afterwards exactly if it was
/// there before.
pub proof fn lemma_stable_sort_keeps_links(items: Seq<ItemView>, link: Seq<char>)
    ensures
        has_link(stable_sort(items), link) <==> has_link(items, link),
    decreases items.len(),
{
    if items.len() > 0 {
        let rest = items.drop_last();
        let sorted_rest = stable_sort(rest);
        lemma_stable_sort_keeps_links(rest, link);
        lemma_insertion_point_bounds(sorted_rest, items.last().published_at);
        lemma_insert_links(
            sorted_rest,
            insertion_point(sorted_rest, items.last().published_at),
            items.last(),
            link,
        );
        lemma_insert_links(rest, rest.len() as int, items.last(), link);
        assert(rest.insert(rest.len() as int, items.last()) =~= items);
    }
}

/// Sorting keeps links unique, and makes none unique that were not.
pub proof fn lemma_stable_sort_keeps_unique(items: Seq<ItemView>)
    ensures
        links_unique(stable_sort(items)) <==> links_unique(items),
    decreases items.len(),
{
    if items.len() > 0 {
        let rest = items.drop_last();
        let sorted_rest = stable_sort(rest);
        lemma_stable_sort_keeps_unique(rest);
        lemma_stable_sort_keeps_links(rest, items.last().link);
        lemma_insertion_point_bounds(sorted_rest, items.last().published_at);
        lemma_insert_unique(
            sorted_rest,
            insertion_point(sorted_rest, items.last().published_at),
            items.last(),
        );
        lemma_insert_unique(rest, rest.len() as int, items.last());
        assert(rest.insert(rest.len() as int, items.last()) =~= items);
    }
}

/// The cached items come first, unchanged, in what `with_new_entries` gives.
pub proof fn lemma_new_entries_follow(
    items: Seq<ItemView>,
    entries: Seq<RawView>,
    site: Seq<char>,
    now: int,
)
    ensures
        items.len() <= with_new_entries(items, entries, site, now).len() <= items.len()
            + entries.len(),
        with_new_entries(items, entries, site, now).take(items.len() as int) == items,
    decreases entries.len(),
{
    if entries.len() > 0 {
        lemma_new_entries_follow(items, entries.drop_last(), site, now);
        let before = with_new_entries(items, entries.drop_last(), site, now);
        let after = with_new_entries(items, entries, site, now);
        assert(after.take(items.len() as int) =~= before.take(items.len() as int));
    } else {
        assert(items.take(items.len() as int) =~= items);
    }
}

/// The links after the entries came in are those cached before and those the
/// document offers.
pub proof fn lemma_new_entries_links(
    items: Seq<ItemView>,
    entries: Seq<RawView>,
    site: Seq<char>,
    now: int,
    link: Seq<char>,
)
    ensures
        has_link(with_new_entries(items, entries, site, now), link) <==> has_link(items, link)
            || offers_link(entries, link),
    decreases entries.len(),
{
    if entries.len() > 0 {
        let rest = entries.drop_last();
        let before = with_new_entries(items, rest, site, now);
        let item = item_from(entries.last(), site, now);
        lemma_new_entries_links(items, rest, site, now, link);
        lemma_insert_links(before, before.len() as int, item, link);
        assert(before.insert(before.len() as int, item) =~= before.push(item));
        if offers_link(rest, link) {
            let k = choose|k: int| 0 <= k < rest.len() && (#[trigger] rest[k]).link == link;
            assert(entries[k].link == link);
        }
        if entries.last().link == link {
            assert(entries[entries.len() - 1].link == link);
        }
        if offers_link(entries, link) {
            let k = choose|k: int| 0 <= k < entries.len() && (#[trigger] entries[k]).link == link;
            if k < rest.len() {
                assert(rest[k].link == link);
            }
        }
    }
}

/// Unique links stay unique when entries come in.
pub proof fn lemma_new_entries_unique(
    items: Seq<ItemView>,
    entries: Seq<RawView>,
    site: Seq<char>,
    now: int,
)
    requires
        links_unique(items),
    ensures
        links_unique(with_new_entries(items, entries, site, now)),
    decreases entries.len(),
{
    if entries.len() > 0 {
        let before = with_new_entries(items, entries.drop_last(), site, now);
        let item = item_from(entries.last(), site, now);
        lemma_new_entries_unique(items, entries.drop_last(), site, now);
        lemma_insert_unique(before, before.len() as int, item);
        assert(before.insert(before.len() as int, item) =~= before.push(item));
    }
}

/// A document that offers no link but cached ones adds nothing.
pub proof fn lemma_nothing_new(
    items: Seq<ItemView>,
    entries: Seq<RawView>,
    site: Seq<char>,
    now: int,
)
    requires
        forall|k: int| 0 <= k < entries.len() ==> has_link(items, (#[trigger] entries[k]).link),
    ensures
        with_new_entries(items, entries, site, now) == items,
    decreases entries.len(),
{
    if entries.len() > 0 {
        let rest = entries.drop_last();
        assert forall|k: int| 0 <= k < rest.len() implies has_link(
            items,
            (#[trigger] rest[k]).link,
        ) by {
            assert(rest[k] == entries[k]);
        }
        lemma_nothing_new(items, rest, site, now);
        assert(has_link(items, entries[entries.len() - 1].link));
    }
}

/// Every item that came in stands for an entry of the document whose link was
/// not cached.
pub proof fn lemma_new_entries_are_new(
    items: Seq<ItemView>,
    entries: Seq<RawView>,
    site: Seq<char>,
    now: int,
    j: int,
)
    requires
        items.len() <= j < with_new_entries(items, entries, site, now).len(),
    ensures
        exists|k: int|
            0 <= k < entries.len() && with_new_entries(items, entries, site, now)[j] == item_from(
                #[trigger] entries[k],
                site,
                now,
            ) && !has_link(items, entries[k].link),
    decreases entries.len(),
{
    lemma_new_entries_follow(items, entries, site, now);
    if entries.len() > 0 {
        let rest = entries.drop_last();
        let before = with_new_entries(items, rest, site, now);
        let after = with_new_entries(items, entries, site, now);
        lemma_new_entries_follow(items, rest, site, now);
        if j < before.len() {
            lemma_new_entries_are_new(items, rest, site, now, j);
            let k = choose|k: int|
                0 <= k < rest.len() && before[j] == item_from(#[trigger] rest[k], site, now)
                    && !has_link(items, rest[k].link);
            assert(entries[k] == rest[k]);
            assert(after[j] == before[j]);
        } else {
            let k = entries.len() - 1;
            assert(!has_link(before, entries.last().link));
            lemma_new_entries_links(items, rest, site, now, entries.last().link);
            assert(after[j] == item_from(entries[k], site, now));
        }
    }
}

/// The merged items are ascending by publication time.
pub proof fn lemma_merged_sorted(
    existing: Seq<ItemView>,
    entries: Seq<RawView>,
    site: Seq<char>,
    now: int,
)
    ensures
        sorted_by_date(merged(existing, entries, site, now)),
{
    lemma_stable_sort_sorted(with_new_entries(existing, entries, site, now));
}

/// A link is cached after a merge exactly if it was cached before or the
/// document offered it: the links grow by the new ones and by nothing else.
pub proof fn lemma_merged_links(
    existing: Seq<ItemView>,
    entries: Seq<RawView>,
    site: Seq<char>,
    now: int,
    link: Seq<char>,
)
    ensures
        has_link(merged(existing, entries, site, now), link) <==> has_link(existing, link)
            || offers_link(entries, link),
{
    lemma_stable_sort_keeps_links(with_new_entries(existing, entries, site, now), link);
    lemma_new_entries_links(existing, entries, site, now, link);
}

/// Merging never makes a duplicate: where no two cached items shared a link,
/// no two merged items do.
pub proof fn lemma_merged_unique(
    existing: Seq<ItemView>,
    entries: Seq<RawView>,
    site: Seq<char>,
    now: int,
)
    requires
        links_unique(existing),
    ensures
        links_unique(merged(existing, entries, site, now)),
{
    lemma_new_entries_unique(existing, entries, site, now);
    lemma_stable_sort_keeps_unique(with_new_entries(existing, entries, site, now));
}

/// Merging the same document a second time changes nothing, whatever the
/// site and the time of the second merge.
pub proof fn lemma_merged_twice(
    existing: Seq<ItemView>,
    entries: Seq<RawView>,
    site: Seq<char>,
    now: int,
    later_site: Seq<char>,
    later: int,
)
    ensures
        merged(merged(existing, entries, site, now), entries, later_site, later) == merged(
            existing,
            entries,
            site,
            now,
        ),
{
    let once = merged(existing, entries, site, now);
    assert forall|k: int| 0 <= k < entries.len() implies has_link(
        once,
        (#[trigger] entries[k]).link,
    ) by {
        lemma_merged_links(existing, entries, site, now, entries[k].link);
    }
    lemma_nothing_new(once, entries, later_site, later);
    lemma_stable_sort_idempotent(with_new_entries(existing, entries, site, now));
}

/// Nothing cached is ever lost: every cached item is among the merged items,
/// as often as it was cached, whether or not the document still has it.
pub proof fn lemma_merged_retains(
    existing: Seq<ItemView>,
    entries: Seq<RawView>,
    site: Seq<char>,
    now: int,
)
    ensures
        existing.to_multiset().subset_of(merged(existing, entries, site, now).to_multiset()),
        forall|i: int|
            0 <= i < existing.len() ==> merged(existing, entries, site, now).contains(
                #[trigger] existing[i],
            ),
{
    broadcast use vstd::multiset::group_multiset_axioms;

    let grown = with_new_entries(existing, entries, site, now);
    let out = merged(existing, entries, site, now);
    lemma_new_entries_follow(existing, entries, site, now);
    lemma_stable_sort_keeps_items(grown);
    let added = grown.skip(existing.len() as int);
    assert(grown =~= existing + added);
    vstd::seq_lib::lemma_multiset_commutative(existing, added);
    assert(existing.to_multiset().subset_of(out.to_multiset()));
    assert forall|i: int| 0 <= i < existing.len() implies out.contains(#[trigger] existing[i]) by {
        vstd::seq_lib::to_multiset_contains(existing, existing[i]);
        vstd::seq_lib::to_multiset_contains(out, existing[i]);
        assert(existing.contains(existing[i]));
    }
}

/// Every merged item was cached before or stands for an entry of the document
/// whose link was not cached.
pub proof fn lemma_merged_from(
    existing: Seq<ItemView>,
    entries: Seq<RawView>,
    site: Seq<char>,
    now: int,
    j: int,
)
    requires
        0 <= j < merged(existing, entries, site, now).len(),
    ensures
        existing.contains(merged(existing, entries, site, now)[j]) || exists|k: int|
            0 <= k < entries.len() && merged(existing, entries, site, now)[j] == item_from(
                #[trigger] entries[k],
                site,
                now,
            ) && !has_link(existing, entries[k].link),
{
    let grown = with_new_entries(existing, entries, site, now);
    let out = merged(existing, entries, site, now);
    lemma_stable_sort_keeps_items(grown);
    vstd::seq_lib::to_multiset_contains(out, out[j]);
    vstd::seq_lib::to_multiset_contains(grown, out[j]);
    assert(out.contains(out[j]));
    let g = choose|g: int| 0 <= g < grown.len() && grown[g] == out[j];
    lemma_new_entries_follow(existing, entries, site, now);
    if g < existing.len() {
        assert(grown.take(existing.len() as int)[g] == grown[g]);
        assert(existing[g] == out[j]);
    } else {
        lemma_new_entries_are_new(existing, entries, site, now, g);
    }
}


/// Whether some item has this link.
pub fn contains_link(items: &Vec<FeedItem>, link: &String) -> (found: bool)
    ensures
        found == has_link(item_views(items@), link@),
{
    let mut i: usize = 0;
    while i < items.len()
        invariant
            i <= items.len(),
            forall|k: int| 0 <= k < i ==> (#[trigger] item_views(items@)[k]).link != link@,
        decreases items.len() - i,
    {
        if items[i].link == *link {
            assert(item_views(items@)[i as int].link == link@);
            return true;
        }
        i += 1;
    }
    false
}

/// Merges the entries of a fetched document into the cached items.
///
/// Every cached item stays. An entry whose link no item has yet becomes an
/// item with the feed's site, dated `now` where the document gave no
/// publication time. The result is sorted ascending by publication time,
/// items of equal time in the order they had.
pub fn merge(
    existing: Vec<FeedItem>,
    entries: &Vec<RawEntry>,
    site: &String,
    now: i64,
) -> (items: Vec<FeedItem>)
    ensures
        item_views(items@) == merged(
            item_views(existing@),
            raw_views(entries@),
            site@,
            now as int,
        ),
{
    let ghost base = item_views(existing@);
    let ghost raws = raw_views(entries@);
    let mut items = existing;
    let mut i: usize = 0;
    assert(raws.take(0) =~= Seq::<RawView>::empty());
    while i < entries.len()
        invariant
            i <= entries.len(),
            raws == raw_views(entries@),
            item_views(items@) == with_new_entries(base, raws.take(i as int), site@, now as int),
        decreases entries.len() - i,
    {
        let entry = &entries[i];
        let ghost before = item_views(items@);
        proof {
            let next = raws.take(i + 1);
            assert(next.drop_last() =~= raws.take(i as int));
            assert(next.last() == entry@);
        }
        if !contains_link(&items, &entry.link) {
            let published_at = match entry.published {
                Some(t) => t,
                None => now,
            };
            let item = FeedItem {
                published_at,
                title: entry.title.clone(),
                link: entry.link.clone(),
                site: site.clone(),
            };
            assert(item@ == item_from(entry@, site@, now as int));
            items.push(item);
            assert(item_views(items@) =~= before.push(item@));
        }
        i += 1;
    }
    assert(raws.take(entries.len() as int) =~= raws);
    sort_by_date(&mut items);
    items
}

} // verus!
