//! The clock that stamps events.

use vstd::prelude::*;

verus! {

/// Reads the high-resolution counter of the `time` crate, `time::precise_time_ns`:
/// nanoseconds since an epoch that the crate leaves unspecified. Nothing is
/// claimed of the value read.
///
/// On unix the crate reads the monotonic clock, which cannot fail. The
/// library is meant for such targets: where the crate finds no clock to
/// read (bare wasm32, a WASI host without one) its function panics.
#[verifier::external_body]
pub(crate) fn precise_time_ns() -> u64 {
    time::precise_time_ns()
}

} // verus!
