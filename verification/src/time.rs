//! Spans of time, and readings of a monotonic clock.
//!
//! A reading of the clock is the span that has gone by since some fixed
//! moment before it; which moment that is makes no difference as long as all
//! readings share it.

use std::time::{Duration, Instant};
use vstd::prelude::*;

verus! {

/// How many nanoseconds a span is long.
pub uninterp spec fn nanos(d: Duration) -> nat;

/// `std::time::Duration::as_nanos`: the whole span in nanoseconds. A span
/// counts its seconds in 64 bits, which bounds the number.
pub assume_specification[ Duration::as_nanos ](d: &Duration) -> (r: u128)
    ensures
        r == nanos(*d),
        r < 0x1_0000_0000_0000_0000 * 1_000_000_000,
;

/// `std::time::Duration::from_secs`: a span of whole seconds.
pub assume_specification[ Duration::from_secs ](secs: u64) -> (r: Duration)
    ensures
        nanos(r) == secs * 1_000_000_000,
;

#[verifier::external_type_specification]
#[verifier::external_body]
pub struct ExInstant(Instant);

/// `std::time::Instant::now`: a moment. Nothing is claimed of it.
pub assume_specification[ Instant::now ]() -> (r: Instant)
;

/// `std::time::Instant::elapsed`: a span. Nothing is claimed of it.
pub assume_specification[ Instant::elapsed ](moment: &Instant) -> (r: Duration)
;

} // verus!
