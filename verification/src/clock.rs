//! The engine's window on the wall clock: the current instant, and parsing
//! a user-supplied start date for a history search.

use vstd::prelude::*;

verus! {

/// What parsing an RFC 3339 date-time string yields: the instant it names,
/// in unix seconds, or nothing when the string does not parse. A function
/// of the string alone.
pub uninterp spec fn parsed_instant(s: Seq<char>) -> Option<int>;

/// Relies on chrono's `Utc::now`: the current instant in unix seconds,
/// non-negative because `Utc::now` itself fails on a pre-epoch system
/// clock.
#[verifier::external_body]
pub fn now_unix() -> (r: i64)
    ensures
        r >= 0,
{
    chrono::Utc::now().timestamp()
}

/// Relies on chrono's `DateTime::parse_from_rfc3339` (and `timestamp` on
/// its result): parsing depends on the characters alone, and yields the
/// named instant in unix seconds exactly when the string is a well-formed
/// RFC 3339 date-time.
#[verifier::external_body]
fn parse_rfc3339_unix(s: &String) -> (r: Option<i64>)
    ensures
        r is Some <==> parsed_instant(s@) is Some,
        r is Some ==> parsed_instant(s@) == Some(r.unwrap() as int),
{
    match chrono::DateTime::parse_from_rfc3339(s) {
        Ok(dt) => Some(dt.timestamp()),
        Err(_) => None,
    }
}

/// The start date was neither "0" nor a well-formed RFC 3339 date-time.
#[derive(Clone, Copy, Debug, PartialEq, Eq)]
pub struct InvalidStartDate;

/// Reads a history search's start date: the literal "0" lifts the limit
/// (no window), anything else must be an RFC 3339 date-time and becomes
/// the window's lower bound.
pub fn parse_window(since: &String) -> (r: Result<Option<i64>, InvalidStartDate>)
    ensures
        since@ == "0"@ ==> r == Ok::<Option<i64>, InvalidStartDate>(None),
        since@ != "0"@ ==> match r {
            Ok(window) => window is Some && parsed_instant(since@) == Some(
                window.unwrap() as int,
            ),
            Err(e) => parsed_instant(since@) is None && e == InvalidStartDate,
        },
{
    let zero: String = "0".to_owned();
    if *since == zero {
        return Ok(None);
    }
    match parse_rfc3339_unix(since) {
        Some(t) => Ok(Some(t)),
        None => Err(InvalidStartDate),
    }
}

} // verus!
