use feed_cache::entry::CacheEntry;
use feed_cache::fetch::FetchError;
use feed_cache::item::{FeedItem, RawEntry};
use feed_cache::scheduler::{due_for_sweep, Decision, Scheduler, SWEEP_PERIOD};
use feed_cache::staleness::{is_stale, DEFAULT_TTL};

fn feed() -> String {
    "https://example.com/feed.xml".to_string()
}

fn entry_at(address: &str, last: i64) -> CacheEntry {
    let item = FeedItem {
        published_at: 1,
        title: "T".to_string(),
        link: "L".to_string(),
        site: "example.com".to_string(),
    };
    CacheEntry::restore(address.to_string(), vec![item], last).expect("a valid record")
}

fn news(at: i64, link: &str) -> RawEntry {
    RawEntry { title: "N".to_string(), link: link.to_string(), published: Some(at) }
}

#[test]
fn default_ttl_and_sweep_period_are_ten_minutes() {
    assert_eq!(DEFAULT_TTL, 600);
    assert_eq!(SWEEP_PERIOD, 600);
}

#[test]
fn missing_entry_is_stale() {
    assert!(is_stale(None, 0, DEFAULT_TTL));
    assert!(is_stale(None, i64::MIN, u64::MAX));
}

#[test]
fn entry_is_stale_when_more_than_the_ttl_has_passed() {
    let entry = entry_at("a", 1000);
    assert!(!is_stale(Some(&entry), 1000, 600));
    assert!(!is_stale(Some(&entry), 1599, 600));
    assert!(!is_stale(Some(&entry), 1600, 600));
    assert!(is_stale(Some(&entry), 1601, 600));
    assert!(is_stale(Some(&entry), 1001, 0));
    assert!(!is_stale(Some(&entry), 1000, 0));
    assert!(!is_stale(Some(&entry), 500, 600));
}

#[test]
fn staleness_does_not_overflow_at_the_ends_of_time() {
    let early = entry_at("a", i64::MIN);
    let late = entry_at("a", i64::MAX);
    assert!(is_stale(Some(&early), i64::MAX, 600));
    assert!(!is_stale(Some(&early), i64::MAX, u64::MAX));
    assert!(!is_stale(Some(&late), i64::MIN, 0));
}

#[test]
fn request_without_entry_is_told_to_fetch() {
    let mut scheduler = Scheduler::new();
    assert!(!scheduler.is_fetching(&feed()));
    assert!(matches!(scheduler.request(&feed(), None, 0, DEFAULT_TTL), Decision::Fetch));
    assert!(scheduler.is_fetching(&feed()));
}

#[test]
fn request_for_a_fresh_entry_makes_no_fetch() {
    let entry = entry_at(&feed(), 1000);
    let mut scheduler = Scheduler::new();
    for now in [1000, 1010, 1600] {
        match scheduler.request(&feed(), Some(&entry), now, DEFAULT_TTL) {
            Decision::Serve(items) => assert_eq!(&items, entry.items()),
            other => panic!("a fresh entry must be served, not {:?}", other),
        }
        assert!(!scheduler.is_fetching(&feed()));
    }
}

#[test]
fn request_for_a_stale_entry_is_told_to_fetch() {
    let entry = entry_at(&feed(), 1000);
    let mut scheduler = Scheduler::new();
    assert!(matches!(scheduler.request(&feed(), Some(&entry), 1601, DEFAULT_TTL), Decision::Fetch));
    assert!(scheduler.is_fetching(&feed()));
}

#[test]
fn two_requests_for_a_stale_entry_make_one_fetch() {
    let entry = entry_at(&feed(), 1000);
    let mut scheduler = Scheduler::new();
    let first = scheduler.request(&feed(), Some(&entry), 1700, DEFAULT_TTL);
    let second = scheduler.request(&feed(), Some(&entry), 1700, DEFAULT_TTL);
    assert!(matches!(first, Decision::Fetch));
    assert!(matches!(second, Decision::Wait));

    let done = scheduler.complete(&feed(), Some(entry), Ok(vec![news(5, "L5")]), 1701);
    assert!(!scheduler.is_fetching(&feed()));
    let fetched = done.entry.items();
    assert_eq!(fetched.len(), 2);

    match scheduler.request(&feed(), Some(&done.entry), 1702, DEFAULT_TTL) {
        Decision::Serve(items) => assert_eq!(&items, fetched),
        other => panic!("the one who waited must be served, not {:?}", other),
    }
    assert!(!scheduler.is_fetching(&feed()));
}

#[test]
fn many_requests_for_a_stale_entry_make_one_fetch() {
    let entry = entry_at(&feed(), 0);
    let mut scheduler = Scheduler::new();
    let mut fetches = 0;
    let mut waits = 0;
    for second in 0..10 {
        match scheduler.request(&feed(), Some(&entry), 1000 + second, DEFAULT_TTL) {
            Decision::Fetch => fetches += 1,
            Decision::Wait => waits += 1,
            Decision::Serve(_) => panic!("a stale entry must not be served"),
        }
    }
    assert_eq!(fetches, 1);
    assert_eq!(waits, 9);
}

#[test]
fn addresses_are_fetched_independently() {
    let other = "https://other.example.org/rss".to_string();
    let mut scheduler = Scheduler::new();
    assert!(matches!(scheduler.request(&feed(), None, 0, DEFAULT_TTL), Decision::Fetch));
    assert!(matches!(scheduler.request(&other, None, 0, DEFAULT_TTL), Decision::Fetch));
    assert!(matches!(scheduler.request(&feed(), None, 0, DEFAULT_TTL), Decision::Wait));
    let done = scheduler.complete(&feed(), None, Err(FetchError::Network), 0);
    assert_eq!(done.failure, Some(FetchError::Network));
    assert!(!scheduler.is_fetching(&feed()));
    assert!(scheduler.is_fetching(&other));
}

#[test]
fn failed_fetch_is_not_repeated_at_once() {
    let entry = entry_at(&feed(), 0);
    let mut scheduler = Scheduler::new();
    assert!(matches!(scheduler.request(&feed(), Some(&entry), 1000, DEFAULT_TTL), Decision::Fetch));
    let done = scheduler.complete(&feed(), Some(entry), Err(FetchError::Network), 1000);
    match scheduler.request(&feed(), Some(&done.entry), 1001, DEFAULT_TTL) {
        Decision::Serve(items) => assert_eq!(&items, done.entry.items()),
        other => panic!("the attempt was recorded, so no {:?}", other),
    }
    assert!(matches!(
        scheduler.request(&feed(), Some(&done.entry), 1601, DEFAULT_TTL),
        Decision::Fetch
    ));
}

#[test]
fn abandon_lets_the_next_caller_fetch() {
    let mut scheduler = Scheduler::new();
    assert!(matches!(scheduler.request(&feed(), None, 0, DEFAULT_TTL), Decision::Fetch));
    scheduler.abandon(&feed());
    assert!(!scheduler.is_fetching(&feed()));
    assert!(matches!(scheduler.request(&feed(), None, 0, DEFAULT_TTL), Decision::Fetch));
}

#[test]
fn abandon_of_an_idle_address_changes_nothing() {
    let other = "https://other.example.org/rss".to_string();
    let mut scheduler = Scheduler::new();
    assert!(matches!(scheduler.request(&other, None, 0, DEFAULT_TTL), Decision::Fetch));
    scheduler.abandon(&feed());
    assert!(scheduler.is_fetching(&other));
    assert!(!scheduler.is_fetching(&feed()));
}

#[test]
fn due_for_sweep_lists_the_stale_addresses_in_order() {
    let entries = vec![
        entry_at("a", 0),
        entry_at("b", 1000),
        entry_at("c", 399),
        entry_at("d", 400),
        entry_at("e", -5),
    ];
    assert_eq!(due_for_sweep(&entries, 1000, 600), vec!["a", "c", "e"]);
    assert_eq!(due_for_sweep(&entries, 1000, 2000), Vec::<String>::new());
    assert_eq!(due_for_sweep(&entries, 5000, 600), vec!["a", "b", "c", "d", "e"]);
    assert_eq!(due_for_sweep(&Vec::new(), 5000, 600), Vec::<String>::new());
}
