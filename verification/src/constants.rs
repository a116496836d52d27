//! Channel identifiers the engine posts to.

use vstd::prelude::*;

verus! {

/// The channel new records and the daily post are announced in.
pub const QUOTES_CHANNEL_ID: u64 = 630235116475514891;

/// The development fallback channel for announcements.
pub const DEV_DM_CHANNEL_ID: u64 = 563105728341082148;

} // verus!
