//! An HTTP rendezvous store: two parties exchange small payloads through sessions that live for a
//! short time.
//!
//! The store holds each session under an identifier that grows over time, evicts the oldest ones
//! where there are too many, and answers requests on the conditions that they put on entity tags.
//! Reading requests, sending responses and waiting for sessions to expire is left to the caller.

use vstd::prelude::*;

pub mod answers;
pub mod base64url;
pub mod changes;
pub mod conditions;
pub mod content_types;
pub mod entity_tags;
pub mod eviction;
pub mod handlers;
pub mod identifiers;
pub mod laws;
pub mod payload;
pub mod sessions;
pub mod times;

pub use self::sessions::{Session, Sessions};

verus! {

/// Default time to live of sessions, in nanoseconds: a minute.
pub const DEFAULT_TTL: u128 = 60_000_000_000;

/// Default maximum number of sessions.
pub const DEFAULT_MAX_ENTRIES: usize = 10_000;

/// Default maximum size of each payload, in bytes.
pub const DEFAULT_MAX_BYTES: usize = 4096;

/// Default maximum size of each payload, for people to read.
pub const DEFAULT_MAX_BYTES_STR: &'static str = "4KiB";

} // verus!
