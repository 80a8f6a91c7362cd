use feed_cache::entry::CacheEntry;
use feed_cache::fetch::{fetch_outcome, FetchError, Response};
use feed_cache::item::{FeedItem, RawEntry};
use feed_cache::scheduler::{get_feed, Event, Scheduler, Step};
use feed_cache::staleness::DEFAULT_TTL;

const DAY_1: i64 = 1_704_067_200;
const DAY_2: i64 = 1_704_153_600;
const DAY_3: i64 = 1_704_240_000;

fn x() -> String {
    "https://example.com/feed.xml".to_string()
}

fn sent(at: i64, title: &str, link: &str) -> RawEntry {
    RawEntry { title: title.to_string(), link: link.to_string(), published: Some(at) }
}

fn held(at: i64, title: &str, link: &str) -> FeedItem {
    FeedItem {
        published_at: at,
        title: title.to_string(),
        link: link.to_string(),
        site: "example.com".to_string(),
    }
}

fn two() -> Vec<RawEntry> {
    vec![sent(DAY_1, "T1", "L1"), sent(DAY_2, "T2", "L2")]
}

fn two_items() -> Vec<FeedItem> {
    vec![held(DAY_1, "T1", "L1"), held(DAY_2, "T2", "L2")]
}

/// The store of one address: what `Store` puts is what the next step finds.
struct Slot(Option<CacheEntry>);

impl Slot {
    fn load(&self) -> Option<CacheEntry> {
        self.0.as_ref().map(|entry| entry.duplicate())
    }

    /// Does what the step says and gives the items that the reader gets, if
    /// the step ends the request.
    fn follow(&mut self, step: Step) -> Option<Vec<FeedItem>> {
        match step {
            Step::Serve(items) => Some(items),
            Step::Store(done) => {
                let items = done.entry.items().clone();
                self.0 = Some(done.entry);
                Some(items)
            }
            Step::Fetch | Step::Wait => None,
        }
    }
}

fn filled(now: i64) -> Slot {
    let mut scheduler = Scheduler::new();
    let mut slot = Slot(None);
    let step = get_feed(&mut scheduler, &x(), None, Event::Fetched(Ok(two())), now, DEFAULT_TTL);
    slot.follow(step);
    slot
}

#[test]
fn get_feed_on_an_empty_store_fetches_and_creates_the_entry() {
    let now = DAY_3;
    let mut scheduler = Scheduler::new();
    let mut slot = Slot(None);
    let step = get_feed(&mut scheduler, &x(), slot.load(), Event::Asked, now, DEFAULT_TTL);
    assert!(matches!(step, Step::Fetch));
    assert!(scheduler.is_fetching(&x()));

    let step =
        get_feed(&mut scheduler, &x(), slot.load(), Event::Fetched(Ok(two())), now, DEFAULT_TTL);
    match &step {
        Step::Store(done) => {
            assert_eq!(done.failure, None);
            assert_eq!(done.entry.address(), &x());
            assert_eq!(done.entry.items(), &two_items());
            assert_eq!(done.entry.last_refresh_attempt(), now);
        }
        other => panic!("the fetched entry must be stored, not {:?}", other),
    }
    assert!(!scheduler.is_fetching(&x()));
    assert_eq!(slot.follow(step), Some(two_items()));
}

#[test]
fn get_feed_ten_seconds_later_serves_the_stored_items() {
    let now = DAY_3;
    let slot = filled(now);
    let mut scheduler = Scheduler::new();
    let step = get_feed(&mut scheduler, &x(), slot.load(), Event::Asked, now + 10, DEFAULT_TTL);
    match step {
        Step::Serve(items) => assert_eq!(items, two_items()),
        other => panic!("a fresh entry must be served, not {:?}", other),
    }
    assert!(!scheduler.is_fetching(&x()));
}

#[test]
fn get_feed_serves_until_the_ttl_has_passed() {
    let slot = filled(1000);
    let mut scheduler = Scheduler::new();
    assert!(matches!(
        get_feed(&mut scheduler, &x(), slot.load(), Event::Asked, 1600, 600),
        Step::Serve(_)
    ));
    assert!(matches!(
        get_feed(&mut scheduler, &x(), slot.load(), Event::Asked, 1601, 600),
        Step::Fetch
    ));
}

#[test]
fn get_feed_after_the_ttl_merges_the_new_item() {
    let now = DAY_3;
    let mut slot = filled(now);
    let later = now + 601;
    let mut scheduler = Scheduler::new();
    let step = get_feed(&mut scheduler, &x(), slot.load(), Event::Asked, later, DEFAULT_TTL);
    assert!(matches!(step, Step::Fetch));
    let mut document = two();
    document.push(sent(DAY_3, "T3", "L3"));
    let step =
        get_feed(&mut scheduler, &x(), slot.load(), Event::Fetched(Ok(document)), later, DEFAULT_TTL);
    let mut three = two_items();
    three.push(held(DAY_3, "T3", "L3"));
    assert_eq!(slot.follow(step), Some(three));
    assert_eq!(slot.load().map(|entry| entry.last_refresh_attempt()), Some(later));
}

#[test]
fn get_feed_keeps_an_item_that_the_remote_dropped() {
    let mut slot = filled(0);
    let mut scheduler = Scheduler::new();
    let document = vec![sent(DAY_2, "T2", "L2"), sent(DAY_3, "T3", "L3")];
    let step =
        get_feed(&mut scheduler, &x(), slot.load(), Event::Fetched(Ok(document)), 601, DEFAULT_TTL);
    let items = slot.follow(step).expect("the fetch ends the request");
    assert_eq!(items.len(), 3);
    assert_eq!(items[0], held(DAY_1, "T1", "L1"));
}

#[test]
fn get_feed_after_a_malformed_document_serves_the_items_as_they_were() {
    let now = DAY_3;
    let mut slot = filled(now);
    let attempt = now + 700;
    let mut scheduler = Scheduler::new();
    assert!(matches!(
        get_feed(&mut scheduler, &x(), slot.load(), Event::Asked, attempt, DEFAULT_TTL),
        Step::Fetch
    ));
    let outcome = fetch_outcome(&Response::Answered { status: 200, document: None });
    let step =
        get_feed(&mut scheduler, &x(), slot.load(), Event::Fetched(outcome), attempt, DEFAULT_TTL);
    match &step {
        Step::Store(done) => {
            assert_eq!(done.failure, Some(FetchError::Parse));
            assert_eq!(done.entry.items(), &two_items());
            assert_eq!(done.entry.last_refresh_attempt(), attempt);
        }
        other => panic!("the attempt must be stored, not {:?}", other),
    }
    assert_eq!(slot.follow(step), Some(two_items()));

    let step = get_feed(&mut scheduler, &x(), slot.load(), Event::Asked, attempt + 1, DEFAULT_TTL);
    match step {
        Step::Serve(items) => assert_eq!(items, two_items()),
        other => panic!("the attempt was recorded, so no {:?}", other),
    }
}

#[test]
fn get_feed_lets_one_of_two_callers_fetch_and_gives_both_the_result() {
    let mut slot = filled(0);
    let now = 1000;
    let mut scheduler = Scheduler::new();
    let first = get_feed(&mut scheduler, &x(), slot.load(), Event::Asked, now, DEFAULT_TTL);
    let second = get_feed(&mut scheduler, &x(), slot.load(), Event::Asked, now, DEFAULT_TTL);
    assert!(matches!(first, Step::Fetch));
    assert!(matches!(second, Step::Wait));

    let mut document = two();
    document.push(sent(DAY_3, "T3", "L3"));
    let step =
        get_feed(&mut scheduler, &x(), slot.load(), Event::Fetched(Ok(document)), now, DEFAULT_TTL);
    let to_first = slot.follow(step).expect("the fetch ends the first request");

    let step = get_feed(&mut scheduler, &x(), slot.load(), Event::Asked, now + 1, DEFAULT_TTL);
    let to_second = slot.follow(step).expect("the second caller is served");
    assert_eq!(to_first, to_second);
    assert_eq!(to_first.len(), 3);
    assert_eq!(slot.load().map(|entry| entry.into_items()), Some(to_first));
}

#[test]
fn get_feed_lets_one_of_many_callers_fetch() {
    let slot = filled(0);
    let mut scheduler = Scheduler::new();
    let mut fetches = 0;
    let mut waits = 0;
    for second in 0..10 {
        match get_feed(&mut scheduler, &x(), slot.load(), Event::Asked, 1000 + second, 600) {
            Step::Fetch => fetches += 1,
            Step::Wait => waits += 1,
            other => panic!("a stale entry is neither served nor stored: {:?}", other),
        }
    }
    assert_eq!((fetches, waits), (1, 9));
}

#[test]
fn get_feed_failure_on_one_address_leaves_the_other_alone() {
    let other = "https://other.example.org/rss".to_string();
    let mut scheduler = Scheduler::new();
    assert!(matches!(
        get_feed(&mut scheduler, &other, None, Event::Asked, 0, DEFAULT_TTL),
        Step::Fetch
    ));
    assert!(matches!(
        get_feed(&mut scheduler, &x(), None, Event::Asked, 0, DEFAULT_TTL),
        Step::Fetch
    ));
    let step = get_feed(
        &mut scheduler,
        &x(),
        None,
        Event::Fetched(Err(FetchError::Network)),
        0,
        DEFAULT_TTL,
    );
    match step {
        Step::Store(done) => {
            assert_eq!(done.entry.address(), &x());
            assert!(done.entry.items().is_empty());
            assert_eq!(done.failure, Some(FetchError::Network));
        }
        other_step => panic!("the attempt must be stored, not {:?}", other_step),
    }
    assert!(!scheduler.is_fetching(&x()));
    assert!(scheduler.is_fetching(&other));
}
