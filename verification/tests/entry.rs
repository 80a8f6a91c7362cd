use feed_cache::entry::CacheEntry;
use feed_cache::item::FeedItem;

fn stored(at: i64, link: &str) -> FeedItem {
    FeedItem {
        published_at: at,
        title: "title".to_string(),
        link: link.to_string(),
        site: "example.com".to_string(),
    }
}

#[test]
fn empty_entry_has_no_items() {
    let entry = CacheEntry::empty("https://example.com/feed".to_string(), 42);
    assert_eq!(entry.address(), "https://example.com/feed");
    assert!(entry.items().is_empty());
    assert_eq!(entry.last_refresh_attempt(), 42);
}

#[test]
fn restore_takes_items_in_order_with_unique_links() {
    let items = vec![stored(1, "a"), stored(1, "b"), stored(5, "c")];
    let entry = CacheEntry::restore("addr".to_string(), items, -7).expect("a valid record");
    assert_eq!(entry.address(), "addr");
    assert_eq!(entry.items(), &vec![stored(1, "a"), stored(1, "b"), stored(5, "c")]);
    assert_eq!(entry.last_refresh_attempt(), -7);
}

#[test]
fn restore_takes_no_items_and_one_item() {
    assert!(CacheEntry::restore("addr".to_string(), Vec::new(), 0).is_some());
    assert!(CacheEntry::restore("addr".to_string(), vec![stored(9, "a")], 0).is_some());
}

#[test]
fn restore_refuses_items_out_of_order() {
    let items = vec![stored(1, "a"), stored(5, "b"), stored(4, "c")];
    assert!(CacheEntry::restore("addr".to_string(), items, 0).is_none());
}

#[test]
fn restore_refuses_a_link_that_occurs_twice() {
    let items = vec![stored(1, "a"), stored(2, "b"), stored(3, "a")];
    assert!(CacheEntry::restore("addr".to_string(), items, 0).is_none());
}

#[test]
fn into_items_hands_the_items_out() {
    let entry = CacheEntry::restore("addr".to_string(), vec![stored(1, "a"), stored(2, "b")], 0)
        .expect("a valid record");
    assert_eq!(entry.into_items(), vec![stored(1, "a"), stored(2, "b")]);
}

#[test]
fn duplicate_is_an_equal_entry() {
    let entry = CacheEntry::restore("addr".to_string(), vec![stored(1, "a"), stored(2, "b")], 33)
        .expect("a valid record");
    let copy = entry.duplicate();
    assert_eq!(copy.address(), entry.address());
    assert_eq!(copy.items(), entry.items());
    assert_eq!(copy.last_refresh_attempt(), 33);
}

#[test]
fn has_link_looks_among_the_items() {
    let entry = CacheEntry::restore("addr".to_string(), vec![stored(1, "a"), stored(2, "b")], 0)
        .expect("a valid record");
    assert!(entry.has_link(&"b".to_string()));
    assert!(!entry.has_link(&"c".to_string()));
}
