//! Timestamp parsing at the chrono boundary.
//!
//! The library measures instants as whole seconds since the Unix epoch;
//! turning calendar text into such an instant is chrono's job, so the two
//! parsers below are trusted wrappers whose results are named rather than
//! spelled out.

use vstd::prelude::*;

verus! {

/// The instant, in seconds since the Unix epoch, that an RFC 3339 string
/// denotes, or `None` when the string is not a valid RFC 3339 date-time.
pub uninterp spec fn rfc3339_instant_of(s: Seq<char>) -> Option<i64>;

/// The instant, in seconds since the Unix epoch, that a journal timestamp
/// prefix such as `Jan 07 11:48:14` denotes in the given year, or `None`
/// when the prefix does not parse.
pub uninterp spec fn journal_instant_of(prefix: Seq<char>, year: int) -> Option<i64>;

/// Relies on chrono's `DateTime::parse_from_rfc3339` and
/// `DateTime::timestamp`: the parsed instant depends on the input text
/// alone.
#[verifier::external_body]
pub(crate) fn parse_rfc3339_instant(s: &str) -> (r: Option<i64>)
    ensures
        r == rfc3339_instant_of(s@),
{
    match chrono::DateTime::parse_from_rfc3339(s) {
        Ok(dt) => Some(dt.with_timezone(&chrono::Utc).timestamp()),
        Err(_) => None,
    }
}

/// Relies on chrono's `NaiveDateTime::parse_from_str` with the journal
/// format `%Y %b %d %H:%M:%S`, and on `NaiveDateTime::and_utc` and
/// `DateTime::timestamp`: the parsed instant depends on the prefix text
/// and the year alone.
#[verifier::external_body]
pub(crate) fn parse_journal_instant(prefix: &str, year: i32) -> (r: Option<i64>)
    ensures
        r == journal_instant_of(prefix@, year as int),
{
    let dated = format!("{} {}", year, prefix);
    match chrono::NaiveDateTime::parse_from_str(&dated, "%Y %b %d %H:%M:%S") {
        Ok(naive) => Some(naive.and_utc().timestamp()),
        Err(_) => None,
    }
}

} // verus!
