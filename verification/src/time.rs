//! Conversion of points in time for the C interface of the clock.

use vstd::prelude::*;

verus! {

/// Nanoseconds per second
pub const NANOS_PER_SEC: u128 = 1_000_000_000;

/// Splits a time of `nanos` nanoseconds since the UNIX epoch into whole seconds
/// and the nanoseconds of the last, unfinished second.
pub fn timespec_of(nanos: u128) -> (r: (u64, u32))
    requires
        nanos / NANOS_PER_SEC <= u64::MAX,
    ensures
        r.0 == nanos / NANOS_PER_SEC,
        r.1 == nanos % NANOS_PER_SEC,
        r.1 < NANOS_PER_SEC,
        r.0 * NANOS_PER_SEC + r.1 == nanos,
{
    let secs = nanos / NANOS_PER_SEC;
    let sub = nanos % NANOS_PER_SEC;
    assert(secs * NANOS_PER_SEC + sub == nanos) by (nonlinear_arith)
        requires
            secs == nanos / NANOS_PER_SEC,
            sub == nanos % NANOS_PER_SEC,
    ;
    (secs as u64, sub as u32)
}

} // verus!
