//! Declarations for the monotonic clock that timed runs read.
//!
//! A clock reading is nondeterministic, so nothing is promised about
//! the values these calls return; the harness's contracts hold whatever
//! duration comes back.

use vstd::prelude::*;

verus! {

/// `std::time::Instant`: an opaque reading of the monotonic clock.
#[verifier::external_type_specification]
#[verifier::external_body]
pub struct ExInstant(std::time::Instant);

/// Relies on `std::time::Instant::now`: a reading of the monotonic
/// clock, about whose value nothing can be said.
pub assume_specification[ std::time::Instant::now ]() -> std::time::Instant;

/// Relies on `std::time::Instant::elapsed`: the time since the instant
/// was captured; it saturates to zero rather than panicking should the
/// clock step backwards.
pub assume_specification[ std::time::Instant::elapsed ](start: &std::time::Instant) -> std::time::Duration;

/// Relies on `std::time::Duration::as_nanos`: the duration expressed as
/// a whole number of nanoseconds.
pub assume_specification[ std::time::Duration::as_nanos ](d: &std::time::Duration) -> u128;

} // verus!
