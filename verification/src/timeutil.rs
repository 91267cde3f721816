//! Timestamp parsing through chrono, behind trusted wrappers: the library
//! works in epoch milliseconds throughout.

use vstd::prelude::*;

verus! {

/// The epoch milliseconds an RFC 3339 timestamp denotes, or nothing for an
/// unparseable string: a function of the string alone.
pub uninterp spec fn rfc3339_millis(s: Seq<char>) -> Option<int>;

/// Relies on `chrono::DateTime::parse_from_rfc3339` and
/// `chrono::DateTime::timestamp_millis`: the epoch milliseconds of an
/// RFC 3339 timestamp, a function of the string alone.
#[verifier::external_body]
pub fn parse_rfc3339_millis(s: &str) -> (r: Option<i64>)
    ensures
        match r {
            Some(v) => rfc3339_millis(s@) == Some(v as int),
            None => rfc3339_millis(s@) is None,
        },
{
    match chrono::DateTime::parse_from_rfc3339(s) {
        Ok(dt) => Some(dt.with_timezone(&chrono::Utc).timestamp_millis()),
        Err(_) => None,
    }
}

/// The epoch milliseconds a naive `YYYY-MM-DDTHH:MM:SS` timestamp (read as
/// UTC) denotes, or nothing: a function of the string alone.
pub uninterp spec fn naive_datetime_millis(s: Seq<char>) -> Option<int>;

/// Relies on `chrono::NaiveDateTime::parse_from_str` with the
/// `%Y-%m-%dT%H:%M:%S` format and `chrono::NaiveDateTime::and_utc`: the
/// epoch milliseconds of a naive UTC timestamp, a function of the string
/// alone.
#[verifier::external_body]
pub fn parse_naive_datetime_millis(s: &str) -> (r: Option<i64>)
    ensures
        match r {
            Some(v) => naive_datetime_millis(s@) == Some(v as int),
            None => naive_datetime_millis(s@) is None,
        },
{
    match chrono::NaiveDateTime::parse_from_str(s, "%Y-%m-%dT%H:%M:%S") {
        Ok(dt) => Some(dt.and_utc().timestamp_millis()),
        Err(_) => None,
    }
}

/// Whether a cutoff timestamp lies in the future of `now_ms`.
pub fn cutoff_in_future(cutoff_ms: Option<i64>, now_ms: i64) -> (r: bool)
    ensures
        r == (cutoff_ms matches Some(c) && c > now_ms),
{
    match cutoff_ms {
        Some(c) => c > now_ms,
        None => false,
    }
}

/// The `start` timestamp attached to a Monaco update: the published
/// `validAt` time when it parses, otherwise the receive time carried on
/// the message, otherwise the present moment.
pub fn start_timestamp(valid_at: Option<&String>, received_at: Option<i64>, now_ms: i64) -> (r:
    i64)
    ensures
        (valid_at matches Some(s) && rfc3339_millis(s@) is Some) ==> Some(r as int)
            == rfc3339_millis(valid_at.unwrap()@),
        !(valid_at matches Some(s) && rfc3339_millis(s@) is Some) ==> r == (
        match received_at {
            Some(v) => v,
            None => now_ms,
        }),
{
    match valid_at {
        Some(s) => {
            match parse_rfc3339_millis(s.as_str()) {
                Some(v) => v,
                None => match received_at {
                    Some(v) => v,
                    None => now_ms,
                },
            }
        },
        None => match received_at {
            Some(v) => v,
            None => now_ms,
        },
    }
}

/// The cutoff of a Pinnacle period, read from its naive UTC timestamp.
pub fn parse_cutoff(s: &str) -> (r: Option<i64>)
    ensures
        match r {
            Some(v) => naive_datetime_millis(s@) == Some(v as int),
            None => naive_datetime_millis(s@) is None,
        },
{
    parse_naive_datetime_millis(s)
}

} // verus!
