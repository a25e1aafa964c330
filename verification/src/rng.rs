//! The capability boundary to the embedder's random-number generator.
//!
//! The engine only needs a seedable source of uniform weights, uniform
//! indices and weighted choices; any generator offering these is
//! substitutable, and reproducibility follows from seeding the same
//! generator identically. Values cross this boundary as the bit patterns of
//! 32-bit IEEE-754 numbers, so the engine itself stays free of real-number
//! arithmetic.

use vstd::prelude::*;

verus! {

/// True of a bit pattern whose number lies in the closed interval from
/// minus one to one: apart from the sign bit, the magnitude does not
/// exceed that of one. This excludes every NaN and infinity, whose
/// magnitude fields are larger.
pub open spec fn is_weight_bits(b: u32) -> bool {
    b & 0x7FFF_FFFFu32 <= 0x3F80_0000u32
}

/// True of a bit pattern whose number lies in the closed unit interval:
/// the sign bit is clear and the pattern does not exceed that of one.
/// This also excludes every NaN and infinity, whose patterns are larger.
pub open spec fn is_unit_interval_bits(b: u32) -> bool {
    b & 0x8000_0000u32 == 0u32 && b <= 0x3F80_0000u32
}

/// True of a bit pattern whose number is finite and not negative: the sign
/// bit is clear and the exponent field is not all ones.
pub open spec fn is_finite_nonneg_bits(b: u32) -> bool {
    b & 0x8000_0000u32 == 0u32 && b & 0x7F80_0000u32 != 0x7F80_0000u32
}

/// Runtime check for [`is_unit_interval_bits`].
pub fn unit_interval_bits(b: u32) -> (r: bool)
    ensures
        r == is_unit_interval_bits(b),
{
    b & 0x8000_0000u32 == 0u32 && b <= 0x3F80_0000u32
}

/// Runtime check for [`is_finite_nonneg_bits`].
pub fn finite_nonneg_bits(b: u32) -> (r: bool)
    ensures
        r == is_finite_nonneg_bits(b),
{
    b & 0x8000_0000u32 == 0u32 && b & 0x7F80_0000u32 != 0x7F80_0000u32
}

/// What the engine asks of a random-number generator. Implementations live
/// with the embedder (seeded however it likes); nothing here can be promised
/// about individual draws beyond their range, so the contracts state range
/// alone.
pub trait RandomSource {
    /// One weight drawn uniformly from the closed interval from minus one to
    /// one, returned as its bit pattern. Which number comes is the draw's
    /// business; that it lies in the interval is the contract.
    fn next_weight(&mut self) -> (r: u32)
        ensures
            is_weight_bits(r),
    ;

    /// One index drawn uniformly from the half-open range below `n`.
    fn next_index(&mut self, n: usize) -> (r: usize)
        requires
            n > 0,
        ensures
            r < n,
    ;

    /// One index drawn with probability proportional to its weight, the
    /// weights given as bit patterns of finite non-negative numbers (for
    /// such patterns, nonzero means strictly positive). An index of weight
    /// zero has probability zero, so the drawn index always carries positive
    /// weight.
    fn weighted_index(&mut self, weights: &Vec<u32>) -> (r: usize)
        requires
            weights@.len() > 0,
            forall|i: int| 0 <= i < weights@.len() ==> is_finite_nonneg_bits(#[trigger] weights@[i]),
            exists|i: int| 0 <= i < weights@.len() && #[trigger] weights@[i] != 0u32,
        ensures
            r < weights@.len(),
            weights@[r as int] != 0u32,
    ;

    /// True with the given probability, a bit pattern inside the closed unit
    /// interval. The two boundary probabilities are degenerate draws: with
    /// the pattern of zero the answer is never true, with the pattern of
    /// one it always is.
    fn flip(&mut self, probability: u32) -> (r: bool)
        requires
            is_unit_interval_bits(probability),
        ensures
            probability == 0u32 ==> !r,
            probability == 0x3F80_0000u32 ==> r,
    ;

    /// The gene moved up or down by the magnitude, the direction drawn
    /// uniformly: the bit pattern of `gene + s * magnitude` computed in
    /// single precision, with `s` either sign with equal probability.
    fn perturb(&mut self, gene: u32, magnitude: u32) -> u32
        requires
            is_finite_nonneg_bits(magnitude),
    ;
}

} // verus!
