//! Random numbers from the thread's generator.

use vstd::prelude::*;

verus! {

/// 32 random bytes.
///
/// Calls `rand::thread_rng` and `RngCore::fill_bytes`; nothing is claimed
/// of the bytes.
#[verifier::external_body]
pub(crate) fn random_bytes32() -> [u8; 32] {
    let mut bytes = [0u8; 32];
    rand::RngCore::fill_bytes(&mut rand::thread_rng(), &mut bytes);
    bytes
}

/// A random number below `bound`.
///
/// Calls `rand::thread_rng` and `Rng::gen_range` on the range from 0 up to
/// `bound`, which panics on an empty range and otherwise returns a number
/// of the range.
#[verifier::external_body]
pub(crate) fn random_below(bound: u64) -> (r: u64)
    requires
        bound > 0,
    ensures
        r < bound,
{
    rand::Rng::gen_range(&mut rand::thread_rng(), 0..bound)
}

/// A random 64-bit number.
///
/// Calls `rand::thread_rng` and `Rng::gen`; nothing is claimed of the
/// number.
#[verifier::external_body]
pub(crate) fn random_u64() -> u64 {
    rand::Rng::gen::<u64>(&mut rand::thread_rng())
}

} // verus!
