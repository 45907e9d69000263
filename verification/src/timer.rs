//! Timer arithmetic: converting ticks and computing the next deadline.
//!
//! Reading the time register and programming the firmware timer are
//! hardware effects; these functions compute the values involved.

use vstd::prelude::*;
use crate::config::{CLOCK_FREQ, MSEC_PER_SEC, TICKS_PER_SEC};

verus! {

/// The current time in milliseconds, given the timer register value `now`.
pub fn get_time_ms(now: u64) -> (r: u64)
    ensures
        r == now / (CLOCK_FREQ / MSEC_PER_SEC),
{
    now / (CLOCK_FREQ / MSEC_PER_SEC)
}

/// The absolute deadline to hand to the firmware so that the next timer
/// interrupt fires one scheduling quantum after `now`.
pub fn set_next_trigger(now: u64) -> (r: u64)
    requires
        now + CLOCK_FREQ / TICKS_PER_SEC <= u64::MAX,
    ensures
        r == now + CLOCK_FREQ / TICKS_PER_SEC,
{
    now + CLOCK_FREQ / TICKS_PER_SEC
}

} // verus!
