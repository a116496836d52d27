//! A reaction-tracking engine for a chat community: it discovers messages
//! whose reactions cross a notability threshold, keeps an in-memory index of
//! them, reconciles that index with durable storage, and serves random and
//! top-N queries.

use vstd::prelude::*;

pub mod cache;
pub mod clock;
pub mod constants;
pub mod merge;
pub mod notability;
pub mod query;
pub mod quotes;
pub mod record;
pub mod requests;
pub mod rng;
pub mod robot;
pub mod scan;
pub mod sched;
pub mod store;

verus! {

/// Minimum count a single reaction type must reach for a message to be
/// considered notable.
pub const MINIMUM_REACTIONS: u64 = 5;

} // verus!
