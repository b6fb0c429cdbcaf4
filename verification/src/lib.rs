//! A local, eventually-consistent mirror of a named collection of remote
//! objects, kept current from full snapshots and an incremental change feed.
//!
//! The objects are known by name and, where they have one, namespace
//! ([`ObjectId`]). A [`Reflector`] holds the objects believed to exist and
//! the version marker from which the change feed goes on. It is brought up
//! to date by handing it what the remote side answered: a snapshot to
//! `reset`, the events of a watch call to `poll`. Making those calls, and
//! sharing the reflector between threads, is left to the caller.
//!
//! Every function here is verified with Verus against the contract it
//! carries. The contracts speak of the reflector's view: a map from
//! identities to objects, and the text of the version marker.

pub mod byte_order;
pub mod cache;
pub mod event;
pub mod laws;
pub mod meta;
pub mod object_id;
pub mod reflector;
pub mod state;

pub use crate::event::{Error, ErrorResponse, ObjectList, WatchEvent, Watched};
pub use crate::meta::Meta;
pub use crate::object_id::ObjectId;
pub use crate::reflector::Reflector;
