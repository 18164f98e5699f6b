//! Timestamps. Dates are carried as seconds since the Unix epoch; the store
//! keeps them as RFC 3339 text, and chrono does the reading of that text.

use vstd::prelude::*;

verus! {

/// The instant, in seconds since the Unix epoch, that an RFC 3339 date-time
/// string denotes, or `None` where the text is not a well-formed date-time.
/// The instant is a function of the characters alone.
pub uninterp spec fn parse_ts(s: Seq<char>) -> Option<i64>;

/// Relies on chrono's `DateTime::parse_from_rfc3339` and
/// `DateTime::<FixedOffset>::timestamp`: both compute from their input alone
/// (the parsed string carries its own offset), so the instant read from a
/// stored date is the name [`parse_ts`] gives it.
#[verifier::external_body]
pub(crate) fn parse_timestamp(s: &String) -> (r: Option<i64>)
    ensures
        r == parse_ts(s@),
{
    match chrono::DateTime::parse_from_rfc3339(s) {
        Ok(dt) => Some(dt.timestamp()),
        Err(_) => None,
    }
}

/// Relies on chrono's `Local::now` for the clock. The result depends on the
/// machine's clock, so nothing is promised of it; every caller is verified
/// for an arbitrary instant.
#[verifier::external_body]
pub(crate) fn current_timestamp() -> i64 {
    chrono::Local::now().timestamp()
}

} // verus!
