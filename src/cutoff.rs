//! The cutoff instant, read from `YYYY-MM-DD HH:MM:SS` text taken as UTC.

use vstd::prelude::*;

use chrono::NaiveDateTime;

use crate::commit::BackportError;

verus! {

/// The seconds since the epoch of a `YYYY-MM-DD HH:MM:SS` text read as UTC,
/// or `None` when the text is not in that form.
pub uninterp spec fn utc_seconds_of(text: Seq<char>) -> Option<i64>;

/// Relies on chrono's `NaiveDateTime::parse_from_str` with the format
/// `%F %X`, then `and_utc` and `timestamp`: the outcome depends on the text alone.
#[verifier::external_body]
fn parse_utc_seconds(text: &str) -> (r: Option<i64>)
    ensures
        r == utc_seconds_of(text@),
{
    match NaiveDateTime::parse_from_str(text, "%F %X") {
        Ok(d) => Some(d.and_utc().timestamp()),
        Err(_) => None,
    }
}

/// The cutoff in seconds since the epoch, or `InvalidCutoff` when `text` is
/// not a `YYYY-MM-DD HH:MM:SS` date and time.
pub fn parse_cutoff(text: &str) -> (r: Result<i64, BackportError>)
    ensures
        match r {
            Ok(v) => utc_seconds_of(text@) == Some(v),
            Err(e) => utc_seconds_of(text@) is None && e == BackportError::InvalidCutoff,
        },
{
    match parse_utc_seconds(text) {
        Some(v) => Ok(v),
        None => Err(BackportError::InvalidCutoff),
    }
}

} // verus!
