//! Wall-clock measurement for the metrics that the engine reports.

use vstd::prelude::*;

verus! {

#[verifier::external_type_specification]
#[verifier::external_body]
pub struct ExInstant(std::time::Instant);

/// The current instant.
///
/// Calls `std::time::Instant::now`; nothing is claimed of the result.
#[verifier::external_body]
pub(crate) fn clock_now() -> std::time::Instant {
    std::time::Instant::now()
}

/// The time that has passed since `start`.
///
/// Calls `std::time::Instant::elapsed`; nothing is claimed of the result.
#[verifier::external_body]
pub(crate) fn clock_elapsed(start: &std::time::Instant) -> std::time::Duration {
    start.elapsed()
}

/// A duration in whole microseconds.
///
/// Calls `std::time::Duration::as_micros`; nothing is claimed of the result.
#[verifier::external_body]
pub(crate) fn duration_micros(d: &std::time::Duration) -> u128 {
    d.as_micros()
}

/// The low 64 bits of a number.
pub fn low_64_bits(m: u128) -> (r: u64)
    ensures
        r == m % 0x1_0000_0000_0000_0000,
{
    let r: u64 = #[verifier::truncate]
    (m as u64);
    assert(r == m % 0x1_0000_0000_0000_0000) by (bit_vector)
        requires
            r == m as u64,
    ;
    r
}

/// The whole microseconds since `start`, cut to 64 bits.
pub(crate) fn micros_since(start: &std::time::Instant) -> u64 {
    let d: std::time::Duration = clock_elapsed(start);
    let m: u128 = duration_micros(&d);
    low_64_bits(m)
}

} // verus!
