//! The jitter scheduler's decision logic.  Each tick's delay is drawn
//! from a normal distribution around a configured mean, so that an
//! observer timing the stream sees no fixed interval.  The draw itself
//! is floating point and is made by the I/O shell; what it hands back is
//! a plain millisecond count, floored at zero here, and the shell adds
//! the result to its clock to obtain the next wake-up deadline.

use vstd::prelude::*;

verus! {

/// Default mean delay between ticks, in milliseconds.
pub const DEFAULT_MEAN_MS: u64 = 10000;

/// Default standard deviation of the delay, in milliseconds.
pub const DEFAULT_STD_DEV_MS: u64 = 1000;

/// A duration must never be negative: a sampled delay below zero is
/// clamped to zero and any other value is kept exactly.
pub fn floor_delay_ms(sample_ms: i64) -> (r: u64)
    ensures
        r == if sample_ms < 0 {
            0u64
        } else {
            sample_ms as u64
        },
{
    if sample_ms < 0 {
        0
    } else {
        sample_ms as u64
    }
}

} // verus!
