//! The portable idle probe.  The library builds in no platform query, so
//! its own reading is always unavailable and idle suspension stays a no-op;
//! a host with a real probe passes its reading to `timer::check_idle`
//! directly.

use vstd::prelude::*;

verus! {

/// Seconds since the last user input, or `None` where no probe is
/// available — as it is here.
pub fn get_idle_seconds() -> (r: Option<u64>)
    ensures
        r is None,
{
    None
}

} // verus!
