//! Getting the items of one feed, with at most one fetch per feed address at
//! any time.
//!
//! Readers and the periodic sweep go through `get_feed`, step by step. A
//! fresh entry is served as it is. For a stale one the first to ask is told
//! to fetch, and whoever asks while that fetch runs is told to wait for it
//! and ask again. The caller performs the fetch and comes back with its
//! outcome, and is then told what to store. The caller loads, fetches, waits
//! and stores; every decision is made here.

use crate::entry::{entry_view, CacheEntry, EntryView};
use crate::fetch::{outcome_view, FetchError};
use crate::item::{clone_items, item_views, FeedItem, ItemView, RawEntry, RawView};
use crate::refresh::{
    failure_of, items_of, lemma_refreshed_is_fresh, lookup, refresh, refreshed_entry, store_after,
    Refreshed,
};
use crate::site::site_of;
use crate::staleness::{is_stale, seen, stale};
use vstd::prelude::*;

verus! {

/// The period of the background sweep, in seconds.
pub const SWEEP_PERIOD: u64 = 600;

/// What a caller who asked for a feed is to do.
#[derive(Debug)]
pub enum Decision {
    /// The entry is fresh: these are its items, and no fetch is made.
    Serve(Vec<FeedItem>),
    /// The entry is stale and nobody fetches it: fetch, then report back
    /// with `complete`.
    Fetch,
    /// The entry is stale and a fetch of it is running: wait until that
    /// fetch has been completed, then ask again.
    Wait,
}

/// What a `Decision` stands for.
pub enum DecisionView {
    Serve(Seq<ItemView>),
    Fetch,
    Wait,
}

impl View for Decision {
    type V = DecisionView;

    open spec fn view(&self) -> DecisionView {
        match *self {
            Decision::Serve(items) => DecisionView::Serve(item_views(items@)),
            Decision::Fetch => DecisionView::Fetch,
            Decision::Wait => DecisionView::Wait,
        }
    }
}

/// The addresses whose fetch is running.
#[derive(Debug)]
pub struct Scheduler {
    in_flight: Vec<String>,
}

/// Some element of `addresses` is this address.
pub open spec fn holds_address(addresses: Seq<String>, address: Seq<char>) -> bool {
    exists|i: int| 0 <= i < addresses.len() && (#[trigger] addresses[i])@ == address
}

impl View for Scheduler {
    type V = Set<Seq<char>>;

    closed spec fn view(&self) -> Set<Seq<char>> {
        Set::new(|address: Seq<char>| holds_address(self.in_flight@, address))
    }
}

/// What a caller is told who asks for the feed at `address` at `now`, where
/// `entry` is the entry as stored and `in_flight` the addresses being fetched.
pub open spec fn decision(
    in_flight: Set<Seq<char>>,
    address: Seq<char>,
    entry: Option<EntryView>,
    now: int,
    ttl: int,
) -> DecisionView {
    if !stale(entry, now, ttl) {
        DecisionView::Serve(entry->0.items)
    } else if in_flight.contains(address) {
        DecisionView::Wait
    } else {
        DecisionView::Fetch
    }
}

/// The addresses being fetched after that caller was answered: the address
/// joins them where the caller was told to fetch.
pub open spec fn in_flight_after(
    in_flight: Set<Seq<char>>,
    address: Seq<char>,
    entry: Option<EntryView>,
    now: int,
    ttl: int,
) -> Set<Seq<char>> {
    if decision(in_flight, address, entry, now, ttl) is Fetch {
        in_flight.insert(address)
    } else {
        in_flight
    }
}

/// How many of the callers who ask for `address` one after another at
/// `times`, while the stored entry stays `entry` and no fetch is completed,
/// are told to fetch.
pub open spec fn fetches(
    in_flight: Set<Seq<char>>,
    address: Seq<char>,
    entry: Option<EntryView>,
    times: Seq<int>,
    ttl: int,
) -> nat
    decreases times.len(),
{
    if times.len() == 0 {
        0
    } else {
        let first: nat = if decision(in_flight, address, entry, times.first(), ttl) is Fetch {
            1
        } else {
            0
        };
        first + fetches(
            in_flight_after(in_flight, address, entry, times.first(), ttl),
            address,
            entry,
            times.drop_first(),
            ttl,
        )
    }
}

/// While a fetch of an address runs, nobody else is told to fetch it.
pub proof fn lemma_no_fetch_while_in_flight(
    in_flight: Set<Seq<char>>,
    address: Seq<char>,
    entry: Option<EntryView>,
    times: Seq<int>,
    ttl: int,
)
    requires
        in_flight.contains(address),
    ensures
        fetches(in_flight, address, entry, times, ttl) == 0,
    decreases times.len(),
{
    if times.len() > 0 {
        lemma_no_fetch_while_in_flight(
            in_flight_after(in_flight, address, entry, times.first(), ttl),
            address,
            entry,
            times.drop_first(),
            ttl,
        );
    }
}

/// Single flight: of any number of callers who ask for an address while its
/// entry is stale and before a fetch is completed, exactly one is told to
/// fetch, the first; all others wait.
pub proof fn lemma_single_flight(
    in_flight: Set<Seq<char>>,
    address: Seq<char>,
    entry: Option<EntryView>,
    times: Seq<int>,
    ttl: int,
)
    requires
        times.len() > 0,
        !in_flight.contains(address),
        forall|i: int| 0 <= i < times.len() ==> stale(entry, #[trigger] times[i], ttl),
    ensures
        fetches(in_flight, address, entry, times, ttl) == 1,
        decision(in_flight, address, entry, times.first(), ttl) is Fetch,
        forall|i: int|
            1 <= i < times.len() ==> decision(
                in_flight.insert(address),
                address,
                entry,
                #[trigger] times[i],
                ttl,
            ) is Wait,
{
    assert(stale(entry, times[0], ttl));
    lemma_no_fetch_while_in_flight(
        in_flight.insert(address),
        address,
        entry,
        times.drop_first(),
        ttl,
    );
}

/// No fetch is made for a fresh entry: while no more than `ttl` seconds have
/// passed since the last attempt, the caller is served the cached items and
/// nothing is marked as being fetched.
pub proof fn lemma_fresh_is_served(
    in_flight: Set<Seq<char>>,
    address: Seq<char>,
    entry: EntryView,
    now: int,
    ttl: int,
)
    requires
        now - entry.last_refresh_attempt <= ttl,
    ensures
        decision(in_flight, address, Some(entry), now, ttl) == DecisionView::Serve(entry.items),
        in_flight_after(in_flight, address, Some(entry), now, ttl) == in_flight,
{
}

/// Everyone sees the one result: once a fetch attempt made at `now` has been
/// applied, whoever asks within `ttl` seconds of it, having waited or not, is
/// served the items of the refreshed entry, which are the items the fetching
/// caller got.
pub proof fn lemma_waiters_see_the_result(
    in_flight: Set<Seq<char>>,
    address: Seq<char>,
    prior: Option<EntryView>,
    outcome: Result<Seq<RawView>, FetchError>,
    now: int,
    later: int,
    ttl: int,
)
    requires
        later - now <= ttl,
    ensures
        decision(
            in_flight,
            address,
            Some(refreshed_entry(address, prior, outcome, site_of(address), now)),
            later,
            ttl,
        ) == DecisionView::Serve(
            refreshed_entry(address, prior, outcome, site_of(address), now).items,
        ),
{
    lemma_refreshed_is_fresh(address, prior, outcome, site_of(address), now, later, ttl);
}

/// The index of an address among those being fetched, if it is there.
fn position(addresses: &Vec<String>, address: &String) -> (at: Option<usize>)
    ensures
        at is Some <==> holds_address(addresses@, address@),
        at matches Some(i) ==> i < addresses.len() && addresses[i as int]@ == address@,
{
    let mut i: usize = 0;
    while i < addresses.len()
        invariant
            i <= addresses.len(),
            forall|k: int| 0 <= k < i ==> (#[trigger] addresses[k])@ != address@,
        decreases addresses.len() - i,
    {
        if addresses[i] == *address {
            return Some(i);
        }
        i += 1;
    }
    None
}

impl Scheduler {
    /// A scheduler with no fetch running.
    pub fn new() -> (scheduler: Scheduler)
        ensures
            scheduler@ == Set::<Seq<char>>::empty(),
    {
        let scheduler = Scheduler { in_flight: Vec::new() };
        assert(scheduler@ =~= Set::<Seq<char>>::empty());
        scheduler
    }

    /// Whether a fetch of this address is running.
    pub fn is_fetching(&self, address: &String) -> (answer: bool)
        ensures
            answer == self@.contains(address@),
    {
        position(&self.in_flight, address).is_some()
    }

    /// Answers a caller who asks for the feed at `address` at time `now`.
    /// `entry` is the entry as stored, `None` where there is none.
    ///
    /// A fresh entry is served without a fetch. For a stale or missing one
    /// the caller is told to fetch unless a fetch of the address is running,
    /// and the address then counts as being fetched until `complete` or
    /// `abandon` is called for it.
    pub fn request(
        &mut self,
        address: &String,
        entry: Option<&CacheEntry>,
        now: i64,
        ttl: u64,
    ) -> (answer: Decision)
        ensures
            answer@ == decision(old(self)@, address@, seen(entry), now as int, ttl as int),
            final(self)@ == in_flight_after(
                old(self)@,
                address@,
                seen(entry),
                now as int,
                ttl as int,
            ),
    {
        match entry {
            Some(e) => {
                if !is_stale(entry, now, ttl) {
                    return Decision::Serve(clone_items(e.items()));
                }
            },
            None => {},
        }
        if position(&self.in_flight, address).is_some() {
            Decision::Wait
        } else {
            let ghost before = self.in_flight@;
            self.in_flight.push(address.clone());
            proof {
                let after = self.in_flight@;
                assert forall|a: Seq<char>| holds_address(after, a) <==> (holds_address(before, a)
                    || a == address@) by {
                    if holds_address(before, a) {
                        let i = choose|i: int| 0 <= i < before.len() && (#[trigger] before[i])@ == a;
                        assert(after[i]@ == a);
                    }
                    if a == address@ {
                        assert(after[before.len() as int]@ == a);
                    }
                    if holds_address(after, a) {
                        let i = choose|i: int| 0 <= i < after.len() && (#[trigger] after[i])@ == a;
                        if i < before.len() {
                            assert(before[i]@ == a);
                        }
                    }
                }
                assert(self@ =~= old(self)@.insert(address@));
            }
            Decision::Fetch
        }
    }

    /// Ends the fetch of `address` without a result to apply, as when the
    /// entry could not be stored: the address no longer counts as being
    /// fetched.
    pub fn abandon(&mut self, address: &String)
        ensures
            final(self)@ == old(self)@.remove(address@),
    {
        let ghost before = self.in_flight@;
        let mut kept: Vec<String> = Vec::new();
        let mut i: usize = 0;
        while i < self.in_flight.len()
            invariant
                i <= self.in_flight.len(),
                self.in_flight@ == before,
                forall|a: Seq<char>|
                    #![trigger holds_address(kept@, a)]
                    holds_address(kept@, a) <==> (a != address@ && holds_address(
                        before.take(i as int),
                        a,
                    )),
            decreases self.in_flight.len() - i,
        {
            let ghost kept_before = kept@;
            let keep = self.in_flight[i] != *address;
            if keep {
                kept.push(self.in_flight[i].clone());
            }
            proof {
                let seen_before = before.take(i as int);
                let seen_after = before.take(i + 1);
                let current = before[i as int]@;
                assert forall|a: Seq<char>| #![trigger holds_address(kept@, a)]
                    holds_address(kept@, a) <==> (a != address@ && holds_address(seen_after, a)) by {
                    if holds_address(kept@, a) {
                        let k = choose|k: int| 0 <= k < kept.len() && (#[trigger] kept@[k])@ == a;
                        if k < kept_before.len() {
                            assert(kept_before[k]@ == a);
                            assert(holds_address(kept_before, a));
                            let j = choose|j: int|
                                0 <= j < seen_before.len() && (#[trigger] seen_before[j])@ == a;
                            assert(seen_after[j]@ == a);
                        } else {
                            assert(seen_after[i as int]@ == a);
                        }
                    }
                    if a != address@ && holds_address(seen_after, a) {
                        let j = choose|j: int|
                            0 <= j < seen_after.len() && (#[trigger] seen_after[j])@ == a;
                        if j < i {
                            assert(seen_before[j]@ == a);
                            assert(holds_address(kept_before, a));
                            let k = choose|k: int|
                                0 <= k < kept_before.len() && (#[trigger] kept_before[k])@ == a;
                            assert(kept@[k]@ == a);
                        } else {
                            assert(kept@[kept.len() - 1]@ == a);
                        }
                    }
                }
            }
            i += 1;
        }
        assert(before.take(before.len() as int) =~= before);
        self.in_flight = kept;
        assert(self@ =~= old(self)@.remove(address@));
    }

    /// Reports the outcome of the fetch of `address`, attempted at `now`.
    /// `prior` is the entry as stored, `None` where there is none.
    ///
    /// Returns the entry to store under the address and the failure to
    /// report, if the fetch failed; the items of that entry are what the
    /// caller hands to its reader. The address no longer counts as being
    /// fetched.
    pub fn complete(
        &mut self,
        address: &String,
        prior: Option<CacheEntry>,
        outcome: Result<Vec<RawEntry>, FetchError>,
        now: i64,
    ) -> (done: Refreshed)
        ensures
            done.entry@ == refreshed_entry(
                address@,
                entry_view(prior),
                outcome_view(outcome),
                site_of(address@),
                now as int,
            ),
            done.failure == failure_of(outcome_view(outcome)),
            final(self)@ == old(self)@.remove(address@),
    {
        self.abandon(address);
        refresh(address, prior, outcome, now)
    }
}

/// What the caller brings to a step of `get_feed`.
#[derive(Debug)]
pub enum Event {
    /// A reader or the sweep asks for the feed.
    Asked,
    /// The fetch that this caller was told to make has ended, with this
    /// outcome.
    Fetched(Result<Vec<RawEntry>, FetchError>),
}

/// What an `Event` stands for.
pub enum EventView {
    Asked,
    Fetched(Result<Seq<RawView>, FetchError>),
}

impl View for Event {
    type V = EventView;

    open spec fn view(&self) -> EventView {
        match *self {
            Event::Asked => EventView::Asked,
            Event::Fetched(outcome) => EventView::Fetched(outcome_view(outcome)),
        }
    }
}

/// What the caller of `get_feed` is to do next.
#[derive(Debug)]
pub enum Step {
    /// Hand these items to the reader. Nothing is fetched, nothing is
    /// stored.
    Serve(Vec<FeedItem>),
    /// Fetch the feed, then come back with `Event::Fetched`.
    Fetch,
    /// A fetch of the address is running: wait until it has ended, then ask
    /// again.
    Wait,
    /// Store the entry under the address and hand its items to the reader.
    /// The failure, if there is one, is to be reported apart from the items.
    Store(Refreshed),
}

/// What a `Step` stands for.
pub enum StepView {
    Serve(Seq<ItemView>),
    Fetch,
    Wait,
    Store(EntryView, Option<FetchError>),
}

impl View for Step {
    type V = StepView;

    open spec fn view(&self) -> StepView {
        match *self {
            Step::Serve(items) => StepView::Serve(item_views(items@)),
            Step::Fetch => StepView::Fetch,
            Step::Wait => StepView::Wait,
            Step::Store(done) => StepView::Store(done.entry@, done.failure),
        }
    }
}

/// The next step for a caller who comes with `event` for the feed at
/// `address` at `now`, where `stored` is the entry as stored and `in_flight`
/// the addresses being fetched.
///
/// Who asks is served a fresh entry, told to fetch a stale one, or told to
/// wait while it is being fetched. Who comes back from the fetch is told to
/// store the entry that the fetch attempt makes of the stored one.
pub open spec fn step_of(
    in_flight: Set<Seq<char>>,
    address: Seq<char>,
    stored: Option<EntryView>,
    event: EventView,
    now: int,
    ttl: int,
) -> StepView {
    match event {
        EventView::Asked => match decision(in_flight, address, stored, now, ttl) {
            DecisionView::Serve(items) => StepView::Serve(items),
            DecisionView::Fetch => StepView::Fetch,
            DecisionView::Wait => StepView::Wait,
        },
        EventView::Fetched(outcome) => StepView::Store(
            refreshed_entry(address, stored, outcome, site_of(address), now),
            failure_of(outcome),
        ),
    }
}

/// The addresses being fetched after that step: the address joins them with
/// the step `Fetch` and leaves them when its fetch has ended.
pub open spec fn in_flight_next(
    in_flight: Set<Seq<char>>,
    address: Seq<char>,
    stored: Option<EntryView>,
    event: EventView,
    now: int,
    ttl: int,
) -> Set<Seq<char>> {
    match event {
        EventView::Asked => in_flight_after(in_flight, address, stored, now, ttl),
        EventView::Fetched(_) => in_flight.remove(address),
    }
}

/// The store after the caller did what the step says: only `Store` changes
/// it, and only the entry of the address.
pub open spec fn store_next(
    store: Map<Seq<char>, EntryView>,
    address: Seq<char>,
    step: StepView,
) -> Map<Seq<char>, EntryView> {
    match step {
        StepView::Store(entry, _) => store.insert(address, entry),
        _ => store,
    }
}

/// No fetch and no write for a fresh entry: who asks while no more than
/// `ttl` seconds have passed since the last attempt is served the items as
/// stored; no address is marked as being fetched and the store stays as it
/// is.
pub proof fn lemma_fresh_entry_is_served_as_stored(
    store: Map<Seq<char>, EntryView>,
    in_flight: Set<Seq<char>>,
    address: Seq<char>,
    now: int,
    ttl: int,
)
    requires
        store.dom().contains(address),
        now - store[address].last_refresh_attempt <= ttl,
    ensures
        step_of(in_flight, address, lookup(store, address), EventView::Asked, now, ttl)
            == StepView::Serve(store[address].items),
        in_flight_next(in_flight, address, lookup(store, address), EventView::Asked, now, ttl)
            == in_flight,
        store_next(
            store,
            address,
            step_of(in_flight, address, lookup(store, address), EventView::Asked, now, ttl),
        ) == store,
{
}

/// Asking never writes: whatever the answer to a caller who asks, the store
/// stays as it is.
pub proof fn lemma_asking_leaves_the_store(
    store: Map<Seq<char>, EntryView>,
    in_flight: Set<Seq<char>>,
    address: Seq<char>,
    stored: Option<EntryView>,
    now: int,
    ttl: int,
)
    ensures
        store_next(store, address, step_of(in_flight, address, stored, EventView::Asked, now, ttl))
            == store,
{
}

/// The first fetch creates the entry: for an address without an entry the
/// caller is told to fetch unless someone else does, and when the fetch
/// succeeded the store holds an entry for the address with the merged
/// entries of the document and the time of the attempt.
pub proof fn lemma_first_fetch_creates_the_entry(
    store: Map<Seq<char>, EntryView>,
    in_flight: Set<Seq<char>>,
    address: Seq<char>,
    entries: Seq<RawView>,
    now: int,
    ttl: int,
)
    requires
        !store.dom().contains(address),
    ensures
        !in_flight.contains(address) ==> step_of(
            in_flight,
            address,
            lookup(store, address),
            EventView::Asked,
            now,
            ttl,
        ) is Fetch,
        lookup(
            store_next(
                store,
                address,
                step_of(
                    in_flight,
                    address,
                    lookup(store, address),
                    EventView::Fetched(Ok(entries)),
                    now,
                    ttl,
                ),
            ),
            address,
        ) == Some(
            EntryView {
                address: address,
                items: crate::merge::merged(Seq::empty(), entries, site_of(address), now),
                last_refresh_attempt: now,
            },
        ),
{
}

/// A failed fetch costs nothing but the attempt: the entry to store has the
/// items as they were and the time of the attempt, the failure is reported
/// beside it, and whoever asks within `ttl` seconds of the attempt is served
/// those items without another fetch.
pub proof fn lemma_failed_fetch_keeps_the_items(
    in_flight: Set<Seq<char>>,
    waiting: Set<Seq<char>>,
    address: Seq<char>,
    stored: Option<EntryView>,
    failure: FetchError,
    now: int,
    later: int,
    ttl: int,
)
    requires
        later - now <= ttl,
    ensures
        step_of(in_flight, address, stored, EventView::Fetched(Err(failure)), now, ttl)
            == StepView::Store(
            EntryView { address: address, items: items_of(stored), last_refresh_attempt: now },
            Some(failure),
        ),
        step_of(
            waiting,
            address,
            Some(
                EntryView { address: address, items: items_of(stored), last_refresh_attempt: now },
            ),
            EventView::Asked,
            later,
            ttl,
        ) == StepView::Serve(items_of(stored)),
{
}

/// What is stored when a fetch has ended is what the refresh of that one
/// address makes of the store, and the address is no longer being fetched.
pub proof fn lemma_fetched_is_the_refresh(
    store: Map<Seq<char>, EntryView>,
    in_flight: Set<Seq<char>>,
    address: Seq<char>,
    outcome: Result<Seq<RawView>, FetchError>,
    now: int,
    ttl: int,
)
    ensures
        store_next(
            store,
            address,
            step_of(in_flight, address, lookup(store, address), EventView::Fetched(outcome), now, ttl),
        ) == store_after(store, address, outcome, now),
        !in_flight_next(
            in_flight,
            address,
            lookup(store, address),
            EventView::Fetched(outcome),
            now,
            ttl,
        ).contains(address),
{
}

/// Of any number of callers who ask for an address while its entry is stale
/// and before a fetch has ended, exactly the first is told to fetch and all
/// others are told to wait; none of them writes to the store.
pub proof fn lemma_one_caller_fetches(
    in_flight: Set<Seq<char>>,
    address: Seq<char>,
    stored: Option<EntryView>,
    times: Seq<int>,
    ttl: int,
)
    requires
        times.len() > 0,
        !in_flight.contains(address),
        forall|i: int| 0 <= i < times.len() ==> stale(stored, #[trigger] times[i], ttl),
    ensures
        fetches(in_flight, address, stored, times, ttl) == 1,
        step_of(in_flight, address, stored, EventView::Asked, times.first(), ttl) is Fetch,
        in_flight_next(in_flight, address, stored, EventView::Asked, times.first(), ttl)
            == in_flight.insert(address),
        forall|i: int|
            1 <= i < times.len() ==> step_of(
                in_flight.insert(address),
                address,
                stored,
                EventView::Asked,
                #[trigger] times[i],
                ttl,
            ) is Wait,
{
    lemma_single_flight(in_flight, address, stored, times, ttl);
    assert(stale(stored, times[0], ttl));
}

/// Everyone gets the one result: the caller who fetched is told to store an
/// entry, and whoever asks within `ttl` seconds of the attempt, having waited
/// or not, is served the items of exactly that entry.
pub proof fn lemma_all_callers_get_the_result(
    in_flight: Set<Seq<char>>,
    waiting: Set<Seq<char>>,
    address: Seq<char>,
    stored: Option<EntryView>,
    outcome: Result<Seq<RawView>, FetchError>,
    now: int,
    later: int,
    ttl: int,
)
    requires
        later - now <= ttl,
    ensures
        step_of(in_flight, address, stored, EventView::Fetched(outcome), now, ttl) matches StepView::Store(
            entry,
            _,
        ) && step_of(waiting, address, Some(entry), EventView::Asked, later, ttl)
            == StepView::Serve(entry.items),
{
    lemma_waiters_see_the_result(waiting, address, stored, outcome, now, later, ttl);
}

/// One step of getting the items of the feed at `address`.
///
/// `stored` is the entry as the store holds it now, `None` where it holds
/// none; `now` is the time of the request, and for `Event::Fetched` the time
/// at which the fetch was attempted. The caller does what the step says and,
/// after `Fetch` and `Wait`, comes back.
pub fn get_feed(
    scheduler: &mut Scheduler,
    address: &String,
    stored: Option<CacheEntry>,
    event: Event,
    now: i64,
    ttl: u64,
) -> (step: Step)
    ensures
        step@ == step_of(
            old(scheduler)@,
            address@,
            entry_view(stored),
            event@,
            now as int,
            ttl as int,
        ),
        final(scheduler)@ == in_flight_next(
            old(scheduler)@,
            address@,
            entry_view(stored),
            event@,
            now as int,
            ttl as int,
        ),
{
    match event {
        Event::Asked => {
            let answer = match &stored {
                Some(entry) => scheduler.request(address, Some(entry), now, ttl),
                None => scheduler.request(address, None, now, ttl),
            };
            match answer {
                Decision::Serve(items) => Step::Serve(items),
                Decision::Fetch => Step::Fetch,
                Decision::Wait => Step::Wait,
            }
        },
        Event::Fetched(outcome) => Step::Store(scheduler.complete(address, stored, outcome, now)),
    }
}

/// The addresses of the stale entries, in the order of `entries`.
pub open spec fn due(entries: Seq<EntryView>, now: int, ttl: int) -> Seq<Seq<char>> {
    entries.filter(|entry: EntryView| stale(Some(entry), now, ttl)).map_values(
        |entry: EntryView| entry.address,
    )
}

/// The views of a sequence of entries, in order.
pub open spec fn entry_views(entries: Seq<CacheEntry>) -> Seq<EntryView> {
    entries.map_values(|entry: CacheEntry| entry@)
}

/// The views of a sequence of texts, in order.
pub open spec fn text_views(texts: Seq<String>) -> Seq<Seq<char>> {
    texts.map_values(|text: String| text@)
}

/// The addresses that a sweep at `now` has to refresh: those of the entries
/// that are stale, in the order in which the store gave the entries.
pub fn due_for_sweep(entries: &Vec<CacheEntry>, now: i64, ttl: u64) -> (addresses: Vec<String>)
    ensures
        text_views(addresses@) == due(entry_views(entries@), now as int, ttl as int),
{
    let ghost views = entry_views(entries@);
    let ghost is_due = |entry: EntryView| stale(Some(entry), now as int, ttl as int);
    let ghost address_of = |entry: EntryView| entry.address;
    let mut addresses: Vec<String> = Vec::new();
    let mut i: usize = 0;
    proof {
        assert(views.take(0) =~= Seq::<EntryView>::empty());
        reveal(Seq::filter);
        assert(text_views(addresses@) =~= views.take(0).filter(is_due).map_values(address_of));
    }
    while i < entries.len()
        invariant
            i <= entries.len(),
            views == entry_views(entries@),
            is_due == |entry: EntryView| stale(Some(entry), now as int, ttl as int),
            address_of == |entry: EntryView| entry.address,
            text_views(addresses@) == views.take(i as int).filter(is_due).map_values(address_of),
        decreases entries.len() - i,
    {
        let ghost before = text_views(addresses@);
        proof {
            assert(views.take(i + 1) =~= views.take(i as int).push(views[i as int]));
            views.take(i as int).lemma_filter_push(views[i as int], is_due);
        }
        if is_stale(Some(&entries[i]), now, ttl) {
            addresses.push(entries[i].address().clone());
            assert(text_views(addresses@) =~= before.push(views[i as int].address));
            assert(views.take(i as int).filter(is_due).push(views[i as int]).map_values(address_of)
                =~= before.push(views[i as int].address));
        }
        i += 1;
    }
    assert(views.take(entries.len() as int) =~= views);
    addresses
}

} // verus!
