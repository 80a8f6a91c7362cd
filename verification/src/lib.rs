//! A cache for syndication feeds.
//!
//! Each feed address has one cache entry: the items seen so far, ascending by
//! publication time and unique by link, together with the time of the last
//! refresh attempt. The modules hold the rules that keep such entries: when an
//! entry is stale, what the answer to a request for a feed is worth, how the
//! entries of a document merge into the cached items, which caller fetches
//! when several ask at once, and how several feeds become one page.
//!
//! Nothing here touches the network or the disk. The caller loads and stores
//! entries, requests and parses documents and reads the clock, and hands the
//! results in. One outside parser is called: `url` reads the host in a feed's
//! address. What it returns is taken on trust; everything made of it is
//! proved.
//!
//! - `item`: feed items and raw entries
//! - `order`: the stable order by publication time
//! - `merge`: merging a document's entries into the cached items
//! - `entry`: the cache entry and what every entry satisfies
//! - `staleness`: when an entry must be fetched again
//! - `site`: the site that a feed's address names
//! - `fetch`: from the answer to a request to raw entries
//! - `refresh`: what a fetch attempt makes of an entry
//! - `scheduler`: getting one feed step by step, one fetch per address at a
//!   time, and the sweep
//! - `aggregate`: one page out of several feeds
//! - `session`: the answers to signing in and out

pub mod aggregate;
pub mod entry;
pub mod fetch;
pub mod item;
pub mod merge;
pub mod order;
pub mod refresh;
pub mod scheduler;
pub mod session;
pub mod site;
pub mod staleness;
