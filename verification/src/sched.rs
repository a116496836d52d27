//! The scheduler's decisions: the cadence of the three periodic loops
//! (rescan, persistence flush, daily post), the wall-clock arithmetic for
//! the daily post, startup jitter, and the per-loop state machine.
//!
//! The loops themselves — sleeping, spawning, locking — are runtime
//! plumbing and stay with the presentation layer; it asks these functions
//! what to do and when.

use vstd::prelude::*;

use crate::rng::fresh_rng;
use crate::rng::rng_below;

verus! {

/// How long the rescan loop sleeps between ticks.
pub const RESCAN_INTERVAL_SECS: u64 = 600;

/// How long the flush loop sleeps between ticks; offset from the rescan
/// cadence to reduce simultaneous lock pressure.
pub const FLUSH_INTERVAL_SECS: u64 = 3610;

/// The second of the day (UTC) at which the daily post fires: 15:00.
pub const DAILY_POST_SECOND_OF_DAY: u64 = 54000;

/// Seconds in a day.
pub const SECONDS_PER_DAY: u64 = 86400;

/// How long to sleep so as to wake at the next 15:00 UTC: always positive,
/// at most a day, and landing exactly on the target second of the day.
pub fn seconds_until_daily_post(now_unix: i64) -> (r: u64)
    requires
        now_unix >= 0,
    ensures
        0 < r <= 86400,
        (now_unix + r) % 86400 == 54000,
{
    let second_of_day: u64 = (now_unix % 86400) as u64;
    let r: u64 = if second_of_day < 54000 {
        54000 - second_of_day
    } else {
        86400 + 54000 - second_of_day
    };
    proof {
        vstd::arithmetic::div_mod::lemma_add_mod_noop(now_unix as int, r as int, 86400);
        assert(now_unix % 86400 == second_of_day as int);
        if second_of_day < 54000 {
            assert((second_of_day + r) % 86400 == 54000) by {
                vstd::arithmetic::div_mod::lemma_small_mod(54000nat, 86400nat);
            }
        } else {
            assert(second_of_day + r == 86400 + 54000);
            assert((86400 + 54000) % 86400 == 54000);
        }
        assert((r as int) % 86400 == r as int || second_of_day >= 54000);
    }
    r
}

/// A random delay of a few seconds before a loop's first tick, so that
/// loops enabled together do not contend for the cache lock in the same
/// instant. Zero when the randomness source fails.
pub fn startup_jitter_secs() -> (r: u64)
    ensures
        r < 10,
{
    match fresh_rng() {
        None => 0,
        Some(mut rng) => {
            let j = rng_below(&mut rng, 10);
            j as u64
        },
    }
}

/// Where a periodic loop stands in its cycle.
#[derive(Clone, Copy, Debug, PartialEq, Eq)]
pub enum LoopPhase {
    Idle,
    Running,
    Succeeded,
    Failed,
    Sleeping,
}

/// What just happened to a periodic loop.
#[derive(Clone, Copy, Debug, PartialEq, Eq)]
pub enum LoopEvent {
    /// The loop's tick begins.
    Start,
    /// The tick's work ended, successfully or not.
    Finished(bool),
    /// The loop lies down until its next tick.
    Sleep,
    /// The sleep interval elapsed.
    Wake,
}

/// The loop cycle: idle, then running, then succeeded or failed (the
/// outcome is logged, never fatal), then sleeping for the interval, then
/// idle again. An event that does not apply to the current phase leaves it
/// unchanged; the cycle ends only with process shutdown.
pub open spec fn spec_next_phase(phase: LoopPhase, event: LoopEvent) -> LoopPhase {
    match (phase, event) {
        (LoopPhase::Idle, LoopEvent::Start) => LoopPhase::Running,
        (LoopPhase::Running, LoopEvent::Finished(ok)) => if ok {
            LoopPhase::Succeeded
        } else {
            LoopPhase::Failed
        },
        (LoopPhase::Succeeded, LoopEvent::Sleep) => LoopPhase::Sleeping,
        (LoopPhase::Failed, LoopEvent::Sleep) => LoopPhase::Sleeping,
        (LoopPhase::Sleeping, LoopEvent::Wake) => LoopPhase::Idle,
        _ => phase,
    }
}

/// Advances a loop's phase by one event.
pub fn next_phase(phase: &LoopPhase, event: &LoopEvent) -> (r: LoopPhase)
    ensures
        r == spec_next_phase(*phase, *event),
{
    match (phase, event) {
        (LoopPhase::Idle, LoopEvent::Start) => LoopPhase::Running,
        (LoopPhase::Running, LoopEvent::Finished(ok)) => if *ok {
            LoopPhase::Succeeded
        } else {
            LoopPhase::Failed
        },
        (LoopPhase::Succeeded, LoopEvent::Sleep) => LoopPhase::Sleeping,
        (LoopPhase::Failed, LoopEvent::Sleep) => LoopPhase::Sleeping,
        (LoopPhase::Sleeping, LoopEvent::Wake) => LoopPhase::Idle,
        _ => *phase,
    }
}

} // verus!
