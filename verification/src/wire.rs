//! Turning a wire-level submission into a candidate game result.
//!
//! The transport hands over the time window as RFC 3339 text; the rest of
//! the crate works on instants measured in milliseconds since the Unix
//! epoch.  Parsing is delegated to chrono behind a trusted wrapper whose
//! result is named by `rfc3339_instant`.

use vstd::prelude::*;

use crate::messages::CreateGamePayload;
use crate::messages::Player;

verus! {

/// The instant, in milliseconds since the Unix epoch, that an RFC 3339
/// string denotes, or `None` where the string is not a valid RFC 3339
/// date-time.  The result depends on the characters alone.
pub uninterp spec fn rfc3339_instant(s: Seq<char>) -> Option<int>;

/// Relies on chrono's `DateTime::parse_from_rfc3339` and
/// `timestamp_millis`: parsing is a function of the input characters
/// alone, and chrono's representable date range keeps the millisecond
/// count within `i64`.
#[verifier::external_body]
fn parse_rfc3339_millis(s: &str) -> (r: Option<i64>)
    ensures
        match r {
            Some(t) => rfc3339_instant(s@) == Some(t as int),
            None => rfc3339_instant(s@) is None,
        },
{
    match chrono::DateTime::parse_from_rfc3339(s) {
        Ok(dt) => Some(dt.timestamp_millis()),
        Err(_) => None,
    }
}

/// A candidate game result with its time window already parsed.
#[derive(Debug)]
pub struct GameSubmission {
    pub start_time: i64,
    pub end_time: i64,
    pub players: Vec<Player>,
}

/// A submission whose time window could not be read at all.
#[derive(Debug)]
pub enum WireError {
    /// The start of the window is not a valid RFC 3339 date-time.
    BadStartTime,
    /// The end of the window is not a valid RFC 3339 date-time.
    BadEndTime,
}

impl WireError {
    /// The human-readable reason reported to the submitting client.
    pub fn message(&self) -> (r: String)
        ensures
            (self matches WireError::BadStartTime) ==> r@ == "start datetime is not valid RFC 3339."@,
            (self matches WireError::BadEndTime) ==> r@ == "end datetime is not valid RFC 3339."@,
    {
        match self {
            WireError::BadStartTime => String::from_str("start datetime is not valid RFC 3339."),
            WireError::BadEndTime => String::from_str("end datetime is not valid RFC 3339."),
        }
    }
}

/// Parses the time window of a wire-level submission, keeping the entry
/// list as it came in.
pub fn submission_from_wire(payload: CreateGamePayload) -> (r: Result<GameSubmission, WireError>)
    ensures
        r is Ok <==> (rfc3339_instant(payload.start_datetime@) is Some && rfc3339_instant(
            payload.end_datetime@,
        ) is Some),
        r matches Ok(s) ==> {
            &&& rfc3339_instant(payload.start_datetime@) == Some(s.start_time as int)
            &&& rfc3339_instant(payload.end_datetime@) == Some(s.end_time as int)
            &&& s.players == payload.players
        },
        (r matches Err(WireError::BadStartTime)) <==> rfc3339_instant(
            payload.start_datetime@,
        ) is None,
        (r matches Err(WireError::BadEndTime)) <==> (rfc3339_instant(
            payload.start_datetime@,
        ) is Some && rfc3339_instant(payload.end_datetime@) is None),
{
    let start_time = match parse_rfc3339_millis(payload.start_datetime.as_str()) {
        Some(t) => t,
        None => {
            return Err(WireError::BadStartTime);
        },
    };
    let end_time = match parse_rfc3339_millis(payload.end_datetime.as_str()) {
        Some(t) => t,
        None => {
            return Err(WireError::BadEndTime);
        },
    };
    Ok(GameSubmission { start_time, end_time, players: payload.players })
}

} // verus!
