//! Time as a number of nanoseconds.

use vstd::prelude::*;

verus! {

/// The nanoseconds of some seconds.
pub open spec fn nanos_of(secs: u64) -> int {
    secs * 1_000_000_000
}

/// The nanoseconds of some seconds.
pub fn nanos(secs: u64) -> (r: u128)
    ensures
        r == nanos_of(secs),
        r <= 0x1_0000_0000_0000_0000 * 1_000_000_000,
{
    secs as u128 * 1_000_000_000
}

/// How long ago a moment was. The clock never goes back, so a moment that lies ahead is now.
pub open spec fn since(moment: u64, now: u64) -> int {
    if now >= moment {
        now - moment
    } else {
        0
    }
}

/// How long ago a moment was.
pub fn elapsed(moment: u64, now: u64) -> (r: u64)
    ensures
        r == since(moment, now),
{
    if now >= moment {
        now - moment
    } else {
        0
    }
}

/// A second is a thousand million nanoseconds, and a moment that lies so many nanoseconds back was
/// that long ago.
pub proof fn time_is_counted(secs: u64, moment: u64, now: u64)
    ensures
        nanos_of(secs) == secs * 1000 * 1000 * 1000,
        moment <= now ==> moment + since(moment, now) == now,
        now < moment ==> since(moment, now) == 0,
{
}

} // verus!
