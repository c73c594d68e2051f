//! The wall clock and the local time zone.  The readings themselves are
//! trusted; everything derived from them states what holds for every
//! possible reading.

use vstd::prelude::*;
use crate::date::Date;
use crate::date::local_date_of_ms;

verus! {

/// Relies on chrono's `Utc::now` and `DateTime::timestamp_millis`: the
/// current wall-clock time in milliseconds since the Unix epoch.  chrono
/// aborts when the system clock reads before the epoch, so the reading is
/// nonnegative; beyond that nothing is promised of it.
#[verifier::external_body]
pub(crate) fn now_ms() -> u64 {
    chrono::Utc::now().timestamp_millis() as u64
}

/// Relies on chrono's `Local::now`: the local time zone's offset from UTC
/// in seconds at the current moment.  Every offset chrono hands out lives
/// in a `FixedOffset`, whose constructors keep it strictly within one day
/// of UTC — the one thing promised here.  Like `Utc::now`, the call aborts
/// when the platform clock is unusable.
#[verifier::external_body]
pub(crate) fn local_offset_seconds() -> (r: i32)
    ensures
        -86400 < r < 86400,
{
    chrono::Local::now().offset().local_minus_utc()
}

/// The local time zone's current offset from UTC, in seconds.
pub fn current_tz_offset_seconds() -> (r: i32)
    ensures
        -86400 < r < 86400,
{
    local_offset_seconds()
}

/// Today's calendar date in the local time zone, clamped to the supported
/// range at both ends.
pub fn current_date() -> (d: Date)
    ensures
        d.valid(),
{
    let ms = now_ms();
    let off = local_offset_seconds();
    local_date_of_ms(ms, off)
}

} // verus!
