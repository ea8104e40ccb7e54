use vstd::prelude::*;

verus! {

/// The IEEE-754 bit pattern of `strsim::jaro_winkler(a, b)`. The score lies
/// between 0.0 and 1.0, and the bit patterns of non-negative doubles are
/// ordered as the doubles are, so comparing patterns compares scores.
pub uninterp spec fn jaro_winkler_bits(a: Seq<char>, b: Seq<char>) -> u64;

/// The bit pattern of the double 1.0.
pub const SCORE_ONE_BITS: u64 = 0x3FF0_0000_0000_0000;

/// Calls `strsim::jaro_winkler(a, b)` and hands back the bit pattern of the
/// score (`f64::to_bits`). strsim documents the score as lying between 0.0 and
/// 1.0; its source computes it from non-negative ratios, never a negative zero
/// or a NaN, so the pattern is at most that of 1.0.
#[verifier::external_body]
pub(crate) fn jaro_winkler_score(a: &str, b: &str) -> (r: u64)
    ensures
        r == jaro_winkler_bits(a@, b@),
        r <= SCORE_ONE_BITS,
{
    strsim::jaro_winkler(a, b).to_bits()
}

} // verus!
