//! The wall clock, read through the `time` crate.
use vstd::prelude::*;
use crate::types::Timestamp;

verus! {

/// Relies on `time::now` and `Tm::to_timespec`: the current time, whose
/// nanosecond part `Timespec::new` keeps within `[0, 1_000_000_000)`.
#[verifier::external_body]
pub(crate) fn current_time() -> (r: Timestamp)
    ensures
        0 <= r.nsec < 1_000_000_000,
{
    let t = time::now().to_timespec();
    Timestamp { sec: t.sec, nsec: t.nsec }
}

} // verus!
