//! The order of items: ascending by publication time, and stable.

use crate::item::{item_views, FeedItem, ItemView};
use vstd::prelude::*;

verus! {

/// Ascending by publication time.
pub open spec fn sorted_by_date(items: Seq<ItemView>) -> bool {
    forall|i: int, j: int|
        #![trigger items[i], items[j]]
        0 <= i <= j < items.len() ==> items[i].published_at <= items[j].published_at
}

/// Where an item of this date goes: behind the last item that is not later.
pub open spec fn insertion_point(items: Seq<ItemView>, date: int) -> int
    decreases items.len(),
{
    if items.len() == 0 {
        0
    } else if items.last().published_at <= date {
        items.len() as int
    } else {
        insertion_point(items.drop_last(), date)
    }
}

/// `items` with `item` put in at its insertion point.
pub open spec fn insert_by_date(items: Seq<ItemView>, item: ItemView) -> Seq<ItemView> {
    items.insert(insertion_point(items, item.published_at), item)
}

/// The items in ascending order of publication time, items of equal time in
/// the order they had.
pub open spec fn stable_sort(items: Seq<ItemView>) -> Seq<ItemView>
    decreases items.len(),
{
    if items.len() == 0 {
        items
    } else {
        insert_by_date(stable_sort(items.drop_last()), items.last())
    }
}

/// The insertion point lies within the sequence or at its end.
pub proof fn lemma_insertion_point_bounds(items: Seq<ItemView>, date: int)
    ensures
        0 <= insertion_point(items, date) <= items.len(),
    decreases items.len(),
{
    if items.len() > 0 && items.last().published_at > date {
        lemma_insertion_point_bounds(items.drop_last(), date);
    }
}

/// Sorting keeps the number of items.
pub proof fn lemma_stable_sort_len(items: Seq<ItemView>)
    ensures
        stable_sort(items).len() == items.len(),
    decreases items.len(),
{
    if items.len() > 0 {
        lemma_stable_sort_len(items.drop_last());
        lemma_insertion_point_bounds(stable_sort(items.drop_last()), items.last().published_at);
    }
}

/// A position is the insertion point when every item from it on is later and
/// the item before it, if there is one, is not.
proof fn lemma_insertion_point_found(items: Seq<ItemView>, date: int, p: int)
    requires
        0 <= p <= items.len(),
        forall|k: int| p <= k < items.len() ==> (#[trigger] items[k]).published_at > date,
        p == 0 || items[p - 1].published_at <= date,
    ensures
        insertion_point(items, date) == p,
    decreases items.len(),
{
    if items.len() > 0 {
        if items.last().published_at <= date {
            assert(p == items.len()) by {
                if p < items.len() {
                    assert(items[items.len() - 1].published_at > date);
                }
            }
        } else {
            assert(p < items.len());
            let rest = items.drop_last();
            assert forall|k: int| p <= k < rest.len() implies (#[trigger] rest[k]).published_at
                > date by {
                assert(rest[k] == items[k]);
            }
            lemma_insertion_point_found(rest, date, p);
        }
    }
}

/// Whether an item was published at exactly `date`.
pub open spec fn on_date(date: int) -> spec_fn(ItemView) -> bool {
    |item: ItemView| item.published_at == date
}

/// The items of `items` that were published at `date`, in their order.
pub open spec fn dated(items: Seq<ItemView>, date: int) -> Seq<ItemView> {
    items.filter(on_date(date))
}

/// The insertion point splits the items: from it on every item is later than
/// the date, and the item just before it is not.
pub proof fn lemma_insertion_point_splits(items: Seq<ItemView>, date: int)
    ensures
        0 <= insertion_point(items, date) <= items.len(),
        forall|k: int|
            insertion_point(items, date) <= k < items.len() ==> (#[trigger] items[k]).published_at
                > date,
        insertion_point(items, date) > 0 ==> items[insertion_point(items, date) - 1].published_at
            <= date,
    decreases items.len(),
{
    if items.len() > 0 && items.last().published_at > date {
        let rest = items.drop_last();
        let p = insertion_point(rest, date);
        lemma_insertion_point_splits(rest, date);
        assert forall|k: int| p <= k < items.len() implies (#[trigger] items[k]).published_at
            > date by {
            if k < rest.len() {
                assert(rest[k] == items[k]);
            }
        }
        if p > 0 {
            assert(rest[p - 1] == items[p - 1]);
        }
    }
}

/// Putting an item in at its insertion point keeps sorted items sorted.
pub proof fn lemma_insert_keeps_sorted(items: Seq<ItemView>, item: ItemView)
    requires
        sorted_by_date(items),
    ensures
        sorted_by_date(insert_by_date(items, item)),
{
    let p = insertion_point(items, item.published_at);
    let out = insert_by_date(items, item);
    lemma_insertion_point_splits(items, item.published_at);
    assert forall|i: int, j: int|
        #![trigger out[i], out[j]]
        0 <= i <= j < out.len() implies out[i].published_at <= out[j].published_at by {
        if i < p {
            assert(out[i] == items[i]);
            assert(items[i].published_at <= items[p - 1].published_at);
        } else if i > p {
            assert(out[i] == items[i - 1]);
        }
        if j < p {
            assert(out[j] == items[j]);
        } else if j > p {
            assert(out[j] == items[j - 1]);
            assert(items[j - 1].published_at > item.published_at);
        }
    }
}

/// What `stable_sort` returns is ascending by publication time.
pub proof fn lemma_stable_sort_sorted(items: Seq<ItemView>)
    ensures
        sorted_by_date(stable_sort(items)),
    decreases items.len(),
{
    if items.len() > 0 {
        lemma_stable_sort_sorted(items.drop_last());
        lemma_insert_keeps_sorted(stable_sort(items.drop_last()), items.last());
    }
}

/// Sorting neither adds nor drops an item: each item occurs as often after as
/// before.
pub proof fn lemma_stable_sort_keeps_items(items: Seq<ItemView>)
    ensures
        stable_sort(items).to_multiset() == items.to_multiset(),
    decreases items.len(),
{
    if items.len() > 0 {
        let rest = items.drop_last();
        let sorted_rest = stable_sort(rest);
        lemma_stable_sort_keeps_items(rest);
        lemma_insertion_point_bounds(sorted_rest, items.last().published_at);
        vstd::seq_lib::to_multiset_insert(
            sorted_rest,
            insertion_point(sorted_rest, items.last().published_at),
            items.last(),
        );
        vstd::seq_lib::to_multiset_build(rest, items.last());
        assert(rest.push(items.last()) =~= items);
    }
}

/// Sorting is stable: the items of any one publication time come out in the
/// order in which they went in.
pub proof fn lemma_stable_sort_keeps_ties(items: Seq<ItemView>, date: int)
    ensures
        dated(stable_sort(items), date) == dated(items, date),
    decreases items.len(),
{
    let pred = on_date(date);
    if items.len() > 0 {
        let rest = items.drop_last();
        let item = items.last();
        let sorted_rest = stable_sort(rest);
        let p = insertion_point(sorted_rest, item.published_at);
        lemma_stable_sort_keeps_ties(rest, date);
        lemma_insertion_point_splits(sorted_rest, item.published_at);
        let head = sorted_rest.take(p);
        let tail = sorted_rest.skip(p);
        assert(sorted_rest =~= head + tail);
        assert(sorted_rest.insert(p, item) =~= head.push(item) + tail);
        Seq::filter_distributes_over_add(head, tail, pred);
        Seq::filter_distributes_over_add(head.push(item), tail, pred);
        head.lemma_filter_push(item, pred);
        rest.lemma_filter_push(item, pred);
        assert(rest.push(item) =~= items);
        if item.published_at == date {
            assert forall|k: int| 0 <= k < tail.len() implies !pred(#[trigger] tail[k]) by {
                assert(tail[k] == sorted_rest[p + k]);
            }
            assert(tail.all(|other: ItemView| !pred(other)));
            tail.lemma_all_neg_filter_empty(pred);
            assert(tail.filter(pred) =~= Seq::<ItemView>::empty());
            assert(head.filter(pred).push(item) + tail.filter(pred) =~= (head.filter(pred)
                + tail.filter(pred)).push(item));
        }
    }
}

/// The items of one publication time, with the last item apart: it is the
/// last of its own time and belongs to no other.
proof fn lemma_dated_by_last(items: Seq<ItemView>, date: int)
    requires
        items.len() > 0,
    ensures
        dated(items, date) == if items.last().published_at == date {
            dated(items.drop_last(), date).push(items.last())
        } else {
            dated(items.drop_last(), date)
        },
{
    items.drop_last().lemma_filter_push(items.last(), on_date(date));
    assert(items.drop_last().push(items.last()) =~= items);
}

/// An item of those published at `date` is an item published at `date`.
proof fn lemma_dated_item(items: Seq<ItemView>, date: int, k: int)
    requires
        0 <= k < dated(items, date).len(),
    ensures
        dated(items, date)[k].published_at == date,
        items.contains(dated(items, date)[k]),
{
    let pred = on_date(date);
    items.lemma_filter_pred(pred, k);
    assert(items.filter(pred).contains(items.filter(pred)[k]));
    items.lemma_filter_contains_rev(pred, items.filter(pred)[k]);
}

/// In sorted items none is later than the last.
proof fn lemma_last_is_latest(items: Seq<ItemView>, item: ItemView)
    requires
        sorted_by_date(items),
        items.contains(item),
    ensures
        item.published_at <= items.last().published_at,
{
    let k = choose|k: int| 0 <= k < items.len() && items[k] == item;
    assert(items[k].published_at <= items[items.len() - 1].published_at);
}

/// Two sorted sequences that hold, for every publication time, the same
/// items in the same order are one and the same.
pub proof fn lemma_order_is_determined(first: Seq<ItemView>, second: Seq<ItemView>)
    requires
        sorted_by_date(first),
        sorted_by_date(second),
        forall|date: int| #[trigger] dated(first, date) == dated(second, date),
    ensures
        first == second,
    decreases first.len(),
{
    if first.len() == 0 {
        if second.len() > 0 {
            let date = second.last().published_at;
            lemma_dated_by_last(second, date);
            assert(dated(first, date) == dated(second, date));
            reveal(Seq::filter);
            assert(dated(first, date).len() == 0);
        }
        assert(first =~= second);
    } else {
        let a = first.last();
        let m = a.published_at;
        lemma_dated_by_last(first, m);
        assert(dated(first, m) == dated(second, m));
        if second.len() == 0 {
            reveal(Seq::filter);
            assert(dated(second, m).len() == 0);
        }
        let b = second.last();
        let n = b.published_at;
        lemma_dated_by_last(second, n);
        assert(dated(first, n) == dated(second, n));
        if m < n {
            let k = dated(second, n).len() - 1;
            lemma_dated_item(first, n, k);
            lemma_last_is_latest(first, dated(first, n)[k]);
        }
        if n < m {
            let k = dated(first, m).len() - 1;
            lemma_dated_item(second, m, k);
            lemma_last_is_latest(second, dated(second, m)[k]);
        }
        assert(m == n);
        let rest_first = first.drop_last();
        let rest_second = second.drop_last();
        assert(dated(first, m).last() == a);
        assert(dated(second, m).last() == b);
        assert(a == b);
        assert forall|date: int| #[trigger]
            dated(rest_first, date) == dated(rest_second, date) by {
            lemma_dated_by_last(first, date);
            lemma_dated_by_last(second, date);
            assert(dated(first, date) == dated(second, date));
            if date == m {
                assert(dated(rest_first, date) =~= dated(first, date).drop_last());
                assert(dated(rest_second, date) =~= dated(second, date).drop_last());
            }
        }
        assert forall|i: int, j: int|
            #![trigger rest_first[i], rest_first[j]]
            0 <= i <= j < rest_first.len() implies rest_first[i].published_at
                <= rest_first[j].published_at by {
            assert(rest_first[i] == first[i] && rest_first[j] == first[j]);
        }
        assert forall|i: int, j: int|
            #![trigger rest_second[i], rest_second[j]]
            0 <= i <= j < rest_second.len() implies rest_second[i].published_at
                <= rest_second[j].published_at by {
            assert(rest_second[i] == second[i] && rest_second[j] == second[j]);
        }
        lemma_order_is_determined(rest_first, rest_second);
        assert(first =~= rest_first.push(a));
        assert(second =~= rest_second.push(b));
    }
}

/// What `stable_sort` returns is the only arrangement of the items that is
/// ascending by publication time and keeps the items of each one time in the
/// order they had.
pub proof fn lemma_stable_sort_is_the_only(items: Seq<ItemView>, arranged: Seq<ItemView>)
    requires
        sorted_by_date(arranged),
        forall|date: int| #[trigger] dated(arranged, date) == dated(items, date),
    ensures
        arranged == stable_sort(items),
{
    lemma_stable_sort_sorted(items);
    assert forall|date: int| #[trigger]
        dated(arranged, date) == dated(stable_sort(items), date) by {
        lemma_stable_sort_keeps_ties(items, date);
        assert(dated(arranged, date) == dated(items, date));
    }
    lemma_order_is_determined(arranged, stable_sort(items));
}

/// Items that are sorted already come out as they went in.
pub proof fn lemma_sorted_unchanged(items: Seq<ItemView>)
    requires
        sorted_by_date(items),
    ensures
        stable_sort(items) == items,
    decreases items.len(),
{
    if items.len() > 0 {
        let rest = items.drop_last();
        assert forall|i: int, j: int|
            #![trigger rest[i], rest[j]]
            0 <= i <= j < rest.len() implies rest[i].published_at <= rest[j].published_at by {
            assert(rest[i] == items[i] && rest[j] == items[j]);
        }
        lemma_sorted_unchanged(rest);
        if rest.len() > 0 {
            assert(rest.last() == items[rest.len() - 1]);
            assert(rest.last().published_at <= items.last().published_at);
        }
        assert(insertion_point(rest, items.last().published_at) == rest.len());
        assert(rest.insert(rest.len() as int, items.last()) =~= items);
    }
}

/// Sorting twice is sorting once.
pub proof fn lemma_stable_sort_idempotent(items: Seq<ItemView>)
    ensures
        stable_sort(stable_sort(items)) == stable_sort(items),
{
    lemma_stable_sort_sorted(items);
    lemma_sorted_unchanged(stable_sort(items));
}


/// Sorts the items ascending by publication time; items of equal time keep
/// their order.
pub fn sort_by_date(items: &mut Vec<FeedItem>)
    ensures
        item_views(final(items)@) == stable_sort(item_views(old(items)@)),
{
    let ghost start = item_views(items@);
    let n = items.len();
    let mut i: usize = 0;
    assert(item_views(items@) =~= stable_sort(start.take(0)) + start.skip(0));
    while i < n
        invariant
            i <= n,
            items.len() == n,
            start.len() == n,
            item_views(items@) == stable_sort(start.take(i as int)) + start.skip(i as int),
        decreases n - i,
    {
        let ghost done = stable_sort(start.take(i as int));
        let ghost before = item_views(items@);
        proof {
            lemma_stable_sort_len(start.take(i as int));
        }
        let date = items[i].published_at;
        let mut p: usize = i;
        while p > 0 && items[p - 1].published_at > date
            invariant
                p <= i,
                i < n,
                items.len() == n,
                forall|k: int| p <= k < i ==> (#[trigger] items[k]).published_at > date,
            decreases p,
        {
            p -= 1;
        }
        proof {
            assert(before[i as int] == start[i as int]);
            assert forall|k: int| p <= k < done.len() implies (#[trigger] done[k]).published_at
                > date by {
                assert(done[k] == before[k]);
                assert(before[k] == items[k]@);
            }
            if p > 0 {
                assert(done[p - 1] == before[p - 1]);
                assert(before[p - 1] == items[p - 1]@);
            }
            lemma_insertion_point_found(done, date as int, p as int);
        }
        let ghost target = done.insert(p as int, start[i as int]) + start.skip(i + 1);
        if p < i {
            let item = items.remove(i);
            items.insert(p, item);
            proof {
                assert(item@ == start[i as int]);
                assert(item_views(items@).len() == target.len());
                assert forall|k: int| 0 <= k < target.len() implies item_views(items@)[k]
                    == target[k] by {
                    if k < p {
                        assert(item_views(items@)[k] == before[k]);
                    } else if k == p {
                    } else if k <= i {
                        assert(item_views(items@)[k] == before[k - 1]);
                    } else {
                        assert(item_views(items@)[k] == before[k]);
                    }
                }
                assert(item_views(items@) =~= target);
            }
        } else {
            assert(item_views(items@) =~= target);
        }
        proof {
            let next = start.take(i + 1);
            assert(next.drop_last() =~= start.take(i as int));
            assert(next.last() == start[i as int]);
            assert(stable_sort(next) == done.insert(p as int, start[i as int]));
        }
        i += 1;
    }
    assert(start.take(n as int) =~= start);
    assert(item_views(items@) =~= stable_sort(start));
}

} // verus!
