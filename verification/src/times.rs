//! Timestamp handling: parsing transcript timestamps to an absolute
//! instant (milliseconds since the Unix epoch) through the `chrono`
//! crate, and the since/until window test.  An unparsable timestamp
//! fails open: the message is kept rather than dropped.

use vstd::prelude::*;

use crate::text::str_eq;

verus! {

/// The instant that parsing `s` as an RFC 3339 date-time yields, in
/// milliseconds since the Unix epoch; a function of the characters
/// alone.
pub uninterp spec fn rfc_instant_of(s: Seq<char>) -> Option<i64>;

/// The instant that parsing `s` as a bare `YYYY-MM-DD` date yields
/// (midnight UTC), in milliseconds since the Unix epoch; a function of
/// the characters alone.
pub uninterp spec fn date_instant_of(s: Seq<char>) -> Option<i64>;

/// Relies on `chrono::DateTime::parse_from_rfc3339`, `with_timezone`
/// and `timestamp_millis`: the instant of an RFC 3339 timestamp, a
/// function of the text alone.
#[verifier::external_body]
fn parse_rfc3339_millis(s: &str) -> (r: Option<i64>)
    ensures
        r == rfc_instant_of(s@),
{
    match chrono::DateTime::parse_from_rfc3339(s) {
        Ok(dt) => Some(dt.with_timezone(&chrono::Utc).timestamp_millis()),
        Err(_) => None,
    }
}

/// Relies on `chrono::NaiveDate::parse_from_str`, `and_hms_opt`,
/// `chrono::DateTime::from_naive_utc_and_offset` and
/// `timestamp_millis`: the instant of a calendar date at midnight UTC,
/// a function of the text alone.
#[verifier::external_body]
fn parse_date_millis(s: &str) -> (r: Option<i64>)
    ensures
        r == date_instant_of(s@),
{
    let date = match chrono::NaiveDate::parse_from_str(s, "%Y-%m-%d") {
        Ok(d) => d,
        Err(_) => return None,
    };
    let dt = date.and_hms_opt(0, 0, 0)?;
    Some(chrono::DateTime::<chrono::Utc>::from_naive_utc_and_offset(dt, chrono::Utc)
        .timestamp_millis())
}

/// The instant a timestamp string denotes: its RFC 3339 reading, or
/// failing that its bare-date reading; `None` when neither parses.
pub open spec fn instant_of(s: Seq<char>) -> Option<i64> {
    if rfc_instant_of(s) is Some {
        rfc_instant_of(s)
    } else {
        date_instant_of(s)
    }
}

/// Parses a timestamp string to an absolute instant: RFC 3339 first,
/// a bare `YYYY-MM-DD` date second.
pub fn parse_time(s: &str) -> (r: Option<i64>)
    ensures
        r == instant_of(s@),
{
    match parse_rfc3339_millis(s) {
        Some(t) => Some(t),
        None => parse_date_millis(s),
    }
}

/// Whether a timestamp falls inside the optional window.  A timestamp
/// that denotes no instant passes: losing real data is worse than weak
/// time filtering.
pub open spec fn spec_time_in_range(ts: Seq<char>, since: Option<i64>, until: Option<i64>) -> bool {
    match instant_of(ts) {
        None => true,
        Some(t) => {
            &&& (since matches Some(s) ==> t >= s)
            &&& (until matches Some(u) ==> t <= u)
        },
    }
}

/// Tests a timestamp against the optional since/until bounds.
pub fn time_in_range(timestamp: &str, since: Option<i64>, until: Option<i64>) -> (r: bool)
    ensures
        r == spec_time_in_range(timestamp@, since, until),
{
    let t = match parse_time(timestamp) {
        Some(t) => t,
        None => {
            return true;
        },
    };
    if let Some(s) = since {
        if t < s {
            return false;
        }
    }
    if let Some(u) = until {
        if t > u {
            return false;
        }
    }
    true
}

/// The since/until window a named timeframe denotes at the given
/// instant: `today` reaches back to UTC midnight, `week` seven days,
/// `month` thirty days; anything else is unbounded.
pub open spec fn spec_timeframe_bounds(tf: Seq<char>, now_ms: i64) -> (Option<i64>, Option<i64>) {
    if tf == "today"@ {
        (Some((now_ms - now_ms % 86400000) as i64), None)
    } else if tf == "week"@ {
        (Some((now_ms - 604800000) as i64), None)
    } else if tf == "month"@ {
        (Some((now_ms - 2592000000) as i64), None)
    } else {
        (None, None)
    }
}

/// Maps a named timeframe to since/until bounds, relative to the
/// caller-supplied current instant in epoch milliseconds.
pub fn timeframe_bounds(timeframe: Option<&str>, now_ms: i64) -> (r: (Option<i64>, Option<i64>))
    requires
        now_ms >= 0,
    ensures
        r == (match timeframe {
            Some(tf) => spec_timeframe_bounds(tf@, now_ms),
            None => (None::<i64>, None::<i64>),
        }),
{
    match timeframe {
        Some(tf) => {
            if str_eq(tf, "today") {
                (Some(now_ms - now_ms % 86400000), None)
            } else if str_eq(tf, "week") {
                (Some(now_ms - 604800000), None)
            } else if str_eq(tf, "month") {
                (Some(now_ms - 2592000000), None)
            } else {
                (None, None)
            }
        },
        None => (None, None),
    }
}

} // verus!
