//! The clock that frames are timed by.

use vstd::prelude::*;

verus! {

/// `time::precise_time_ns`: the reading of a high-resolution counter, in
/// nanoseconds since a moment that is not specified. Nothing is claimed of
/// the value.
#[verifier::external_body]
pub(crate) fn now_ns() -> (now: u64) {
    time::precise_time_ns()
}

} // verus!
