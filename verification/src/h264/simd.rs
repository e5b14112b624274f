//! The dispatched 4x4 inverse transform. Every vector kernel computes the same
//! butterfly as the scalar transform, so the dispatch is written here as the one
//! safe kernel whose result all of them share.
use vstd::prelude::*;
use super::transform::{idct4, idct_4x4_scalar};

verus! {

/// The 4x4 inverse transform, as the fastest kernel of the machine computes it:
/// the row and column butterflies with rounding by `(x + 32) >> 6`.
pub fn idct_4x4_simd(coeffs: &[i16; 16], output: &mut [i16; 16])
    ensures
        final(output)@ == idct4(coeffs@),
{
    idct_4x4_scalar(coeffs, output);
}

} // verus!
