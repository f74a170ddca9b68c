//! Reading the clock.

use vstd::prelude::*;

verus! {

/// `std::time::Instant`: a reading of the monotonic clock, carried as an
/// opaque value.
#[verifier::external_type_specification]
#[verifier::external_body]
pub struct ExInstant(std::time::Instant);

/// `std::time::Instant::now`: the current reading of the monotonic clock.
/// Nothing is claimed of the reading.
#[verifier::external_body]
pub(crate) fn instant_now() -> (now: std::time::Instant) {
    std::time::Instant::now()
}

/// `std::time::Instant::elapsed`: the time that has passed since `begin`
/// was read. Nothing is claimed of its length.
#[verifier::external_body]
pub(crate) fn instant_elapsed(begin: &std::time::Instant) -> (elapsed: std::time::Duration) {
    begin.elapsed()
}

/// `std::time::Duration::as_millis`: the whole milliseconds in `d`.
/// Nothing is claimed of the number.
#[verifier::external_body]
pub(crate) fn duration_as_millis(d: &std::time::Duration) -> (ms: u128) {
    d.as_millis()
}

/// `ms` where it fits in 64 bits, and the largest 64-bit number otherwise.
pub open spec fn clamp_ms(ms: u128) -> u64 {
    if ms <= u64::MAX {
        ms as u64
    } else {
        u64::MAX
    }
}

/// Narrows a count of milliseconds to 64 bits, saturating.
pub fn millis_to_u64(ms: u128) -> (r: u64)
    ensures
        r == clamp_ms(ms),
{
    if ms <= u64::MAX as u128 {
        ms as u64
    } else {
        u64::MAX
    }
}

} // verus!
