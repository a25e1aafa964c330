//! A neuroevolution engine: feedforward neural networks bred by a genetic
//! algorithm instead of trained by gradient descent.
//!
//! Every scalar (a weight, a bias, a gene, a fitness score) is carried as the
//! 32-bit pattern of an IEEE-754 single-precision number. The library never
//! performs floating-point arithmetic itself: it moves, flattens and
//! recombines these patterns, which is exactly what makes its behaviour
//! reproducible bit for bit. The few places where real-number arithmetic is
//! unavoidable (drawing a uniform weight, weighted sampling, perturbing a
//! gene) sit behind the [`rng::RandomSource`] capability trait, which the
//! embedding program implements with its generator of choice.

use vstd::prelude::*;

pub mod genetic;
pub mod genome;
pub mod network;
pub mod rng;

verus! {

/// The width of one layer boundary: how many neurons the layer has.
#[derive(Clone, Copy, PartialEq, Eq, Structural, Debug)]
pub struct LayerTopology {
    pub neurons: usize,
}

/// Why an operation was refused. Every variant marks a misuse at the
/// caller's side; nothing here is retryable.
#[derive(Clone, Copy, PartialEq, Eq, Structural, Debug)]
pub enum CoreError {
    /// A topology must name at least two widths: an input and an output.
    TopologyTooShort,
    /// A genome for this topology must hold exactly the expected number of
    /// genes; nothing is truncated or padded.
    GenomeLengthMismatch,
    /// A mutation chance must be a number inside the closed unit interval.
    MutationChanceOutOfRange,
    /// A mutation strength must be a finite non-negative number.
    MutationStrengthInvalid,
}

} // verus!
