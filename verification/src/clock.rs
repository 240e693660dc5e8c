//! Millisecond time stamps.

use vstd::prelude::*;

verus! {

/// Milliseconds since the epoch, from the whole seconds and the
/// nanoseconds of the second that has begun.
pub fn timestamp(since_epoch_secs: u64, subsec_nanos: u32) -> (ms: i64)
    requires
        subsec_nanos < 1_000_000_000,
        since_epoch_secs * 1000 + subsec_nanos / 1_000_000 <= i64::MAX,
    ensures
        ms == since_epoch_secs * 1000 + subsec_nanos / 1_000_000,
{
    let secs = since_epoch_secs as i64;
    let millis = (subsec_nanos / 1_000_000) as i64;
    secs * 1000 + millis
}

} // verus!
