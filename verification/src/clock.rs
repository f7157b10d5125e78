//! The wall clock that stamps accepted transitions.

use vstd::prelude::*;
use crate::model::Timestamp;

verus! {

/// Reads the wall clock through `time::get_time`, which returns the seconds
/// and nanoseconds since the epoch. Nothing is claimed of the value: the
/// clock may stand still or step backwards between two readings.
#[verifier::external_body]
pub(crate) fn wall_clock() -> (now: Timestamp) {
    let t = time::get_time();
    Timestamp { sec: t.sec, nsec: t.nsec }
}

} // verus!
