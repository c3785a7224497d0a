//! The wall clock.

use vstd::prelude::*;

verus! {

/// The times that the clock tells lie below this bound: 2^31 days of 86 400
/// seconds.
pub const CLOCK_LIMIT: i64 = 185_542_587_187_200;

/// `chrono::Utc::now` and `DateTime::timestamp`: the present time in whole
/// seconds since the Unix epoch. Which time that is, is whatever the
/// machine's clock says. chrono makes the time only where its day, counted
/// from the start of the calendar, fits 32 bits, which keeps the seconds
/// below [`CLOCK_LIMIT`]. Where the clock stands before the epoch, or beyond
/// the years that chrono counts, chrono does not answer but panics.
#[verifier::external_body]
pub(crate) fn unix_now() -> (now: i64)
    ensures
        now < CLOCK_LIMIT,
{
    chrono::Utc::now().timestamp()
}

} // verus!
