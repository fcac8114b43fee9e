//! Prediction of the batch size: how the size follows the trend of the
//! latency.

use vstd::prelude::*;

verus! {

/// Where the latency is heading.
#[derive(Debug, Clone, Copy, PartialEq, Eq, Structural)]
pub enum Trend {
    /// The latency rises quickly.
    Rising,
    /// The latency falls.
    Falling,
    /// The latency stays about the same.
    Stable,
}

/// The batch size that follows `current` under a trend, before it is held
/// to its bounds: four fifths of it where the latency rises, eleven tenths
/// where it falls, each rounded down.
pub open spec fn scaled_batch_size(current: usize, trend: Trend) -> nat {
    match trend {
        Trend::Rising => (current * 4 / 5) as nat,
        Trend::Falling => (current * 11 / 10) as nat,
        Trend::Stable => current as nat,
    }
}

/// `x`, but no less than `min` and no more than `max`.
pub open spec fn clamped(x: nat, min: usize, max: usize) -> usize {
    if x < min {
        min
    } else if x > max {
        max
    } else {
        x as usize
    }
}

/// The batch size for the next round: the scaled size, held between `min`
/// and `max`.
pub fn adjust_batch_size(current: usize, trend: Trend, min: usize, max: usize) -> (next: usize)
    requires
        min <= max,
    ensures
        next == clamped(scaled_batch_size(current, trend), min, max),
        min <= next <= max,
{
    let wide: u128 = current as u128;
    let scaled: u128 = match trend {
        Trend::Rising => wide * 4 / 5,
        Trend::Falling => wide * 11 / 10,
        Trend::Stable => wide,
    };
    if scaled < min as u128 {
        min
    } else if scaled > max as u128 {
        max
    } else {
        scaled as usize
    }
}

/// A predictor that is backed by a neural network; it holds no model yet.
pub struct NeuralBatchPredictor {}

} // verus!
