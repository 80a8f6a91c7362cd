//! From the answer to a request for a feed to the entries of the feed.
//!
//! The request is the caller's, and so is the reading of the body: the
//! caller hands in the status of the answer and what a feed parser read in
//! its body. That is judged here: no answer and an answer without success are
//! network failures, a body that is no feed is a parse failure, and so is a
//! feed with an entry that cannot be cached; any other feed gives its
//! entries.

use crate::item::{raw_views, RawEntry, RawView};
use vstd::prelude::*;

verus! {

/// Why a fetch gave no entries. Neither is fatal: the refresh of that one
/// address is given up and the cached items stay.
#[derive(Clone, Copy, Debug, PartialEq, Eq)]
pub enum FetchError {
    /// No answer in time, no connection, or a status other than success.
    Network,
    /// The body is not a feed, or an entry of it lacks a title or a link.
    Parse,
}

/// What a request for a feed gave.
#[derive(Debug)]
pub enum Response {
    /// No answer: the request timed out or no connection came about.
    Unreachable,
    /// An answer with its status code and the entries that a feed parser
    /// read in its body, `None` where the parser read no feed in it.
    Answered { status: u16, document: Option<Vec<DocumentEntry>> },
}

/// One entry of a feed document as the parser hands it out: the title if it
/// has one, the addresses of its links in order, and the publication time in
/// seconds since the epoch if it has one.
#[derive(Debug)]
pub struct DocumentEntry {
    pub title: Option<String>,
    pub links: Vec<String>,
    pub published: Option<i64>,
}

/// What a `DocumentEntry` stands for.
pub struct DocumentEntryView {
    pub title: Option<Seq<char>>,
    pub links: Seq<Seq<char>>,
    pub published: Option<int>,
}

impl View for DocumentEntry {
    type V = DocumentEntryView;

    open spec fn view(&self) -> DocumentEntryView {
        DocumentEntryView {
            title: match self.title {
                Some(t) => Some(t@),
                None => None,
            },
            links: self.links@.map_values(|link: String| link@),
            published: match self.published {
                Some(t) => Some(t as int),
                None => None,
            },
        }
    }
}

/// The views of a document's entries, in order.
pub open spec fn document_views(entries: Seq<DocumentEntry>) -> Seq<DocumentEntryView> {
    entries.map_values(|entry: DocumentEntry| entry@)
}

/// The view of a parsed body that may be absent.
pub open spec fn document_view(document: Option<Vec<DocumentEntry>>) -> Option<
    Seq<DocumentEntryView>,
> {
    match document {
        Some(entries) => Some(document_views(entries@)),
        None => None,
    }
}

/// An entry can be cached when it has a title and at least one link.
pub open spec fn usable(entry: DocumentEntryView) -> bool {
    entry.title is Some && entry.links.len() > 0
}

/// The raw entry of a usable document entry: its title, the first of its
/// links, its publication time.
pub open spec fn raw_from(entry: DocumentEntryView) -> RawView {
    RawView { title: entry.title->0, link: entry.links[0], published: entry.published }
}

/// What a parsed document gives: its entries where all of them are usable, a
/// parse failure where one is not or the document was refused.
pub open spec fn entries_of(document: Option<Seq<DocumentEntryView>>) -> Result<
    Seq<RawView>,
    FetchError,
> {
    match document {
        None => Err(FetchError::Parse),
        Some(entries) => if forall|i: int| 0 <= i < entries.len() ==> usable(#[trigger] entries[i]) {
            Ok(entries.map_values(|entry: DocumentEntryView| raw_from(entry)))
        } else {
            Err(FetchError::Parse)
        },
    }
}

/// The view of what a fetch gave.
pub open spec fn outcome_view(outcome: Result<Vec<RawEntry>, FetchError>) -> Result<
    Seq<RawView>,
    FetchError,
> {
    match outcome {
        Ok(entries) => Ok(raw_views(entries@)),
        Err(e) => Err(e),
    }
}

/// A status code that reports success.
pub open spec fn is_success(status: int) -> bool {
    200 <= status < 300
}

/// What an answer gives, where `document` is what the parser read in its
/// body: a network failure without an answer or without success, else what
/// the document gives.
pub open spec fn fetched(
    answered: bool,
    status: int,
    document: Option<Seq<DocumentEntryView>>,
) -> Result<Seq<RawView>, FetchError> {
    if answered && is_success(status) {
        entries_of(document)
    } else {
        Err(FetchError::Network)
    }
}

/// The raw entries of a parsed document. A document with an entry that lacks
/// a title or a link is refused as a whole.
pub fn raw_entries(document: &Vec<DocumentEntry>) -> (outcome: Result<Vec<RawEntry>, FetchError>)
    ensures
        outcome_view(outcome) == entries_of(Some(document_views(document@))),
{
    let ghost views = document_views(document@);
    let mut entries: Vec<RawEntry> = Vec::new();
    let mut i: usize = 0;
    while i < document.len()
        invariant
            i <= document.len(),
            views == document_views(document@),
            entries.len() == i,
            forall|k: int| 0 <= k < i ==> usable(#[trigger] views[k]),
            forall|k: int| 0 <= k < i ==> (#[trigger] entries[k])@ == raw_from(views[k]),
        decreases document.len() - i,
    {
        let entry = &document[i];
        assert(views[i as int] == entry@);
        if entry.links.len() == 0 {
            assert(!usable(views[i as int]));
            return Err(FetchError::Parse);
        }
        let title = match &entry.title {
            Some(t) => t.clone(),
            None => {
                assert(!usable(views[i as int]));
                return Err(FetchError::Parse);
            },
        };
        let raw = RawEntry { title, link: entry.links[0].clone(), published: entry.published };
        assert(raw@ == raw_from(views[i as int]));
        entries.push(raw);
        i += 1;
    }
    assert(raw_views(entries@) =~= views.map_values(|entry: DocumentEntryView| raw_from(entry)));
    Ok(entries)
}

/// Judges what a request for a feed gave: no answer, or an answer whose
/// status is not a success, is a network failure; otherwise the body counts,
/// and gives its entries or a parse failure.
pub fn fetch_outcome(response: &Response) -> (outcome: Result<Vec<RawEntry>, FetchError>)
    ensures
        outcome_view(outcome) == match *response {
            Response::Unreachable => fetched(false, 0, None),
            Response::Answered { status, document } => fetched(
                true,
                status as int,
                document_view(document),
            ),
        },
{
    match response {
        Response::Unreachable => Err(FetchError::Network),
        Response::Answered { status, document } => {
            if 200 <= *status && *status < 300 {
                match document {
                    Some(entries) => raw_entries(entries),
                    None => Err(FetchError::Parse),
                }
            } else {
                Err(FetchError::Network)
            }
        },
    }
}

} // verus!
