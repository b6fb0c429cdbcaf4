//! What the remote side sends: change events, snapshots and errors.

use vstd::prelude::*;

verus! {

/// What the remote side reported when it ended a change feed with an error.
#[derive(Clone, Debug, PartialEq, Eq)]
pub struct ErrorResponse {
    pub status: String,
    pub message: String,
    pub reason: String,
    pub code: u16,
}

/// Why a `poll` or a `reset` failed.
#[derive(Clone, Debug, PartialEq, Eq)]
pub enum Error {
    /// The list or watch request itself failed.
    Transport(String),
    /// An explicit error event appeared in the change feed.
    Stream(ErrorResponse),
}

/// One event of the change feed.
#[derive(Clone, Debug, PartialEq)]
pub enum WatchEvent<K> {
    /// An object came into being.
    Added(K),
    /// An object changed.
    Modified(K),
    /// An object went away.
    Deleted(K),
    /// Nothing changed; the object only carries a newer version marker.
    Bookmark(K),
    /// The remote side ended the feed.
    Error(ErrorResponse),
}

/// A full snapshot: every object that exists, and the version marker from
/// which a change feed can go on.
#[derive(Clone, Debug, PartialEq)]
pub struct ObjectList<K> {
    pub items: Vec<K>,
    pub resource_version: Option<String>,
}

/// One item of a change feed as the transport hands it over: an event, or
/// the error on which the transport broke off.
pub type Watched<K> = Result<WatchEvent<K>, Error>;

impl<K> WatchEvent<K> {
    /// The object that the event is about, if it is about one.
    pub open spec fn object(self) -> Option<K> {
        match self {
            WatchEvent::Added(o) => Some(o),
            WatchEvent::Modified(o) => Some(o),
            WatchEvent::Deleted(o) => Some(o),
            WatchEvent::Bookmark(o) => Some(o),
            WatchEvent::Error(_) => None,
        }
    }
}

/// The error with which an item of the feed ends a poll, if it ends it.
pub open spec fn failure<K>(item: Watched<K>) -> Option<Error> {
    match item {
        Ok(WatchEvent::Error(e)) => Some(Error::Stream(e)),
        Ok(_) => None,
        Err(e) => Some(e),
    }
}

} // verus!
