//! Macroblock reconstruction: prediction plus inverse-transformed residual,
//! clipped to the sample range, over 4x4 and 8x8 blocks.
use vstd::prelude::*;
use crate::error::Result;
use super::arith::clip_pixel;
use super::transform::{idct_4x4, idct_8x8, idct4, idct8};
use crate::filter::lemma_row_col_unique;

verus! {

/// A reconstructed macroblock: 16x16 luma and two 8x8 chroma blocks.
#[derive(Debug, Clone, Copy)]
pub struct ReconstructedMb {
    pub luma: [u8; 256],
    pub chroma_u: [u8; 64],
    pub chroma_v: [u8; 64],
}

/// `pred + res` clipped to the sample range.
fn add_clip(pred: u8, res: i32) -> (r: u8)
    requires
        -100000 <= res <= 100000,
    ensures
        r == clip_pixel(pred + res) as u8,
{
    let v = pred as i32 + res;
    if v < 0 { 0 } else if v > 255 { 255 } else { v as u8 }
}

/// Each sample of `out` is the clipped sum of the samples of `pred` and `res`.
pub open spec fn clipped_sum(out: Seq<u8>, pred: Seq<u8>, res: Seq<int>) -> bool {
    &&& out.len() == pred.len()
    &&& forall|i: int| 0 <= i < out.len() ==> #[trigger] out[i] == clip_pixel(pred[i] + res[i]) as u8
}

impl ReconstructedMb {
    /// All samples zero.
    pub fn new() -> (m: ReconstructedMb)
        ensures
            m.luma@ == Seq::new(256, |i: int| 0u8),
            m.chroma_u@ == Seq::new(64, |i: int| 0u8),
            m.chroma_v@ == Seq::new(64, |i: int| 0u8),
    {
        let m = ReconstructedMb { luma: [0u8; 256], chroma_u: [0u8; 64], chroma_v: [0u8; 64] };
        assert(m.luma@ =~= Seq::new(256, |i: int| 0u8));
        assert(m.chroma_u@ =~= Seq::new(64, |i: int| 0u8));
        assert(m.chroma_v@ =~= Seq::new(64, |i: int| 0u8));
        m
    }

    /// The prediction plus the residual (both as stored bytes), clipped, in each
    /// component.
    pub fn from_prediction_and_residual(prediction: &ReconstructedMb, residual: &ReconstructedMb) -> (m: ReconstructedMb)
        ensures
            clipped_sum(m.luma@, prediction.luma@, residual.luma@.map_values(|v: u8| v as int)),
            clipped_sum(m.chroma_u@, prediction.chroma_u@, residual.chroma_u@.map_values(|v: u8| v as int)),
            clipped_sum(m.chroma_v@, prediction.chroma_v@, residual.chroma_v@.map_values(|v: u8| v as int)),
    {
        let mut result = ReconstructedMb::new();
        let mut i: usize = 0;
        while i < 256
            invariant
                i <= 256,
                result.luma@.len() == 256,
                forall|k: int| 0 <= k < i ==> #[trigger] result.luma@[k]
                    == clip_pixel(prediction.luma@[k] + residual.luma@[k]) as u8,
            decreases 256 - i,
        {
            result.luma[i] = add_clip(prediction.luma[i], residual.luma[i] as i32);
            i += 1;
        }
        let mut i: usize = 0;
        while i < 64
            invariant
                i <= 64,
                result.chroma_u@.len() == 64,
                forall|k: int| 0 <= k < 256 ==> #[trigger] result.luma@[k]
                    == clip_pixel(prediction.luma@[k] + residual.luma@[k]) as u8,
                forall|k: int| 0 <= k < i ==> #[trigger] result.chroma_u@[k]
                    == clip_pixel(prediction.chroma_u@[k] + residual.chroma_u@[k]) as u8,
            decreases 64 - i,
        {
            result.chroma_u[i] = add_clip(prediction.chroma_u[i], residual.chroma_u[i] as i32);
            i += 1;
        }
        let mut i: usize = 0;
        while i < 64
            invariant
                i <= 64,
                result.chroma_v@.len() == 64,
                forall|k: int| 0 <= k < 256 ==> #[trigger] result.luma@[k]
                    == clip_pixel(prediction.luma@[k] + residual.luma@[k]) as u8,
                forall|k: int| 0 <= k < 64 ==> #[trigger] result.chroma_u@[k]
                    == clip_pixel(prediction.chroma_u@[k] + residual.chroma_u@[k]) as u8,
                forall|k: int| 0 <= k < i ==> #[trigger] result.chroma_v@[k]
                    == clip_pixel(prediction.chroma_v@[k] + residual.chroma_v@[k]) as u8,
            decreases 64 - i,
        {
            result.chroma_v[i] = add_clip(prediction.chroma_v[i], residual.chroma_v[i] as i32);
            i += 1;
        }
        result
    }
}

impl Default for ReconstructedMb {
    fn default() -> (m: ReconstructedMb)
        ensures
            m.luma@ == Seq::new(256, |i: int| 0u8),
            m.chroma_u@ == Seq::new(64, |i: int| 0u8),
            m.chroma_v@ == Seq::new(64, |i: int| 0u8),
    {
        ReconstructedMb::new()
    }
}

/// The residual of a block as integers.
pub open spec fn as_ints(s: Seq<i16>) -> Seq<int> {
    s.map_values(|v: i16| v as int)
}

/// Inverse-transform a 4x4 block and add it to the prediction, clipped.
pub fn reconstruct_4x4_block(coeffs: &[i16; 16], prediction: &[u8; 16], output: &mut [u8; 16]) -> (r: Result<()>)
    ensures
        r is Ok,
        clipped_sum(final(output)@, prediction@, as_ints(idct4(coeffs@))),
{
    let mut spatial = [0i16; 16];
    idct_4x4(coeffs, &mut spatial);
    let mut i: usize = 0;
    while i < 16
        invariant
            i <= 16,
            spatial@ == idct4(coeffs@),
            output@.len() == 16,
            forall|k: int| 0 <= k < i ==> #[trigger] output@[k] == clip_pixel(prediction@[k] + spatial@[k]) as u8,
        decreases 16 - i,
    {
        output[i] = add_clip(prediction[i], spatial[i] as i32);
        i += 1;
    }
    Ok(())
}

/// Inverse-transform an 8x8 block and add it to the prediction, clipped.
pub fn reconstruct_8x8_block(coeffs: &[i16; 64], prediction: &[u8; 64], output: &mut [u8; 64]) -> (r: Result<()>)
    ensures
        r is Ok,
        clipped_sum(final(output)@, prediction@, as_ints(idct8(coeffs@))),
{
    let mut spatial = [0i16; 64];
    idct_8x8(coeffs, &mut spatial);
    let mut i: usize = 0;
    while i < 64
        invariant
            i <= 64,
            spatial@ == idct8(coeffs@),
            output@.len() == 64,
            forall|k: int| 0 <= k < i ==> #[trigger] output@[k] == clip_pixel(prediction@[k] + spatial@[k]) as u8,
        decreases 64 - i,
    {
        output[i] = add_clip(prediction[i], spatial[i] as i32);
        i += 1;
    }
    Ok(())
}

/// The index in a plane with rows of `stride` of sample `(x, y)` of block `b`, where
/// blocks of `size` samples are laid `per_row` to a row.
pub open spec fn block_index(b: int, per_row: int, size: int, stride: int, x: int, y: int) -> int {
    ((b / per_row) * size + y) * stride + (b % per_row) * size + x
}

pub(crate) proof fn lemma_block_index(b1: int, x1: int, y1: int, b2: int, x2: int, y2: int, per_row: int, size: int, stride: int)
    requires
        per_row >= 1,
        size >= 1,
        stride == per_row * size,
        0 <= b1,
        0 <= b2,
        0 <= x1 < size,
        0 <= y1 < size,
        0 <= x2 < size,
        0 <= y2 < size,
        block_index(b1, per_row, size, stride, x1, y1) == block_index(b2, per_row, size, stride, x2, y2),
    ensures
        b1 == b2 && x1 == x2 && y1 == y2,
{
    let c1 = (b1 % per_row) * size + x1;
    let c2 = (b2 % per_row) * size + x2;
    vstd::arithmetic::div_mod::lemma_mod_bound(b1, per_row);
    vstd::arithmetic::div_mod::lemma_mod_bound(b2, per_row);
    assert(c1 < stride && c2 < stride) by (nonlinear_arith)
        requires c1 == (b1 % per_row) * size + x1, c2 == (b2 % per_row) * size + x2, 0 <= b1 % per_row < per_row,
            0 <= b2 % per_row < per_row, x1 < size, x2 < size, stride == per_row * size, size >= 1;
    assert(0 <= c1 && 0 <= c2) by (nonlinear_arith)
        requires c1 == (b1 % per_row) * size + x1, c2 == (b2 % per_row) * size + x2, 0 <= b1 % per_row,
            0 <= b2 % per_row, x1 >= 0, x2 >= 0, size >= 1;
    vstd::arithmetic::div_mod::lemma_div_pos_is_pos(b1, per_row);
    vstd::arithmetic::div_mod::lemma_div_pos_is_pos(b2, per_row);
    assert(0 <= (b1 / per_row) * size + y1 && 0 <= (b2 / per_row) * size + y2) by (nonlinear_arith)
        requires b1 / per_row >= 0, b2 / per_row >= 0, y1 >= 0, y2 >= 0, size >= 1;
    lemma_row_col_unique((b1 / per_row) * size + y1, c1, (b2 / per_row) * size + y2, c2, stride);
    lemma_row_col_unique(b1 / per_row, y1, b2 / per_row, y2, size);
    lemma_row_col_unique(b1 % per_row, x1, b2 % per_row, x2, size);
    vstd::arithmetic::div_mod::lemma_fundamental_div_mod(b1, per_row);
    vstd::arithmetic::div_mod::lemma_fundamental_div_mod(b2, per_row);
}

/// Reconstruct `n` square blocks of `size` samples laid `per_row` to a row of
/// `stride` samples: each block's prediction taken from `prediction`, its residual
/// the inverse transform of its coefficients.
pub open spec fn blocks_reconstructed(out: Seq<u8>, prediction: Seq<u8>, residuals: spec_fn(int) -> Seq<i16>,
    n: int, per_row: int, size: int, stride: int) -> bool {
    &&& out.len() == prediction.len()
    &&& forall|b: int, y: int, x: int| 0 <= b < n && 0 <= y < size && 0 <= x < size ==>
        out[#[trigger] block_index(b, per_row, size, stride, x, y)]
            == clip_pixel(prediction[block_index(b, per_row, size, stride, x, y)] + residuals(b)[y * size + x]) as u8
}

/// The block layout of a square plane: `per_row` blocks of `size` samples to a
/// row of `stride` samples, `len` samples in all.
pub open spec fn layout_ok(per_row: int, size: int, stride: int, len: int) -> bool {
    &&& per_row >= 1
    &&& size >= 1
    &&& stride == per_row * size
    &&& len == stride * stride
}

pub(crate) proof fn lemma_block_bounds(b: int, per_row: int, size: int, stride: int, len: int, x: int, y: int)
    requires
        layout_ok(per_row, size, stride, len),
        0 <= b < per_row * per_row,
        0 <= x < size,
        0 <= y < size,
    ensures
        0 <= block_index(b, per_row, size, stride, x, y) < len,
        0 <= (b / per_row) * size + y < stride,
        0 <= (b % per_row) * size + x < stride,
        0 <= y * size + x < size * size,
{
    vstd::arithmetic::div_mod::lemma_div_pos_is_pos(b, per_row);
    vstd::arithmetic::div_mod::lemma_mod_bound(b, per_row);
    vstd::arithmetic::div_mod::lemma_div_by_multiple_is_strongly_ordered(b, per_row * per_row, per_row, per_row);
    let r = b / per_row;
    let c = b % per_row;
    assert(r < per_row) by {
        vstd::arithmetic::div_mod::lemma_div_is_ordered(b, per_row * per_row - 1, per_row);
        vstd::arithmetic::div_mod::lemma_div_multiples_vanish(per_row, per_row);
        vstd::arithmetic::div_mod::lemma_fundamental_div_mod(b, per_row);
        assert(r * per_row <= b) by (nonlinear_arith)
            requires b == per_row * r + c, c >= 0;
        assert(r < per_row) by (nonlinear_arith)
            requires r * per_row <= b, b < per_row * per_row, per_row >= 1;
    }
    assert(0 <= r * size + y < stride) by (nonlinear_arith)
        requires 0 <= r < per_row, 0 <= y < size, stride == per_row * size, size >= 1;
    assert(0 <= c * size + x < stride) by (nonlinear_arith)
        requires 0 <= c < per_row, 0 <= x < size, stride == per_row * size, size >= 1;
    let row = r * size + y;
    let col = c * size + x;
    assert(0 <= row * stride + col < stride * stride) by (nonlinear_arith)
        requires 0 <= row < stride, 0 <= col < stride;
    assert(0 <= y * size + x < size * size) by (nonlinear_arith)
        requires 0 <= y < size, 0 <= x < size;
}

/// Copy block `b` of `plane` into `blk`, row by row.
pub(crate) fn gather_block(plane: &[u8], b: usize, per_row: usize, size: usize, stride: usize, blk: &mut [u8])
    requires
        layout_ok(per_row as int, size as int, stride as int, plane@.len() as int),
        b < per_row * per_row,
        old(blk)@.len() == size * size,
    ensures
        final(blk)@.len() == size * size,
        forall|y: int, x: int| 0 <= y < size && 0 <= x < size ==>
            #[trigger] final(blk)@[y * size + x] == plane@[block_index(b as int, per_row as int, size as int, stride as int, x, y)],
{
    let len = plane.len();
    let blen = blk.len();
    proof {
        lemma_block_bounds(b as int, per_row as int, size as int, stride as int, plane@.len() as int, 0, 0);
    }
    let block_y = (b / per_row) * size;
    let block_x = (b % per_row) * size;
    let mut y: usize = 0;
    while y < size
        invariant
            layout_ok(per_row as int, size as int, stride as int, plane@.len() as int),
            len == plane@.len(),
            blen == blk@.len(),
            b < per_row * per_row,
            block_y == (b / per_row) * size,
            block_x == (b % per_row) * size,
            y <= size,
            blk@.len() == size * size,
            forall|yy: int, xx: int| 0 <= yy < y && 0 <= xx < size ==>
                #[trigger] blk@[yy * size + xx] == plane@[block_index(b as int, per_row as int, size as int, stride as int, xx, yy)],
        decreases size - y,
    {
        let mut x: usize = 0;
        while x < size
            invariant
                layout_ok(per_row as int, size as int, stride as int, plane@.len() as int),
                len == plane@.len(),
                blen == blk@.len(),
            blen == blk@.len(),
            len == plane@.len(),
            blen == blk@.len(),
                b < per_row * per_row,
                block_y == (b / per_row) * size,
                block_x == (b % per_row) * size,
                y < size,
                x <= size,
                blk@.len() == size * size,
                forall|yy: int, xx: int| 0 <= xx < size && (0 <= yy < y || (yy == y && xx < x)) ==>
                    #[trigger] blk@[yy * size + xx] == plane@[block_index(b as int, per_row as int, size as int, stride as int, xx, yy)],
            decreases size - x,
        {
            proof {
                lemma_block_bounds(b as int, per_row as int, size as int, stride as int, plane@.len() as int, x as int, y as int);
                assert forall|yy: int, xx: int| 0 <= xx < size && (0 <= yy < y || (yy == y && xx < x)) implies
                    #[trigger] (yy * size + xx) != y * size + x && 0 <= yy * size + xx < size * size by {
                    lemma_block_bounds(b as int, per_row as int, size as int, stride as int, plane@.len() as int, xx, yy);
                    if yy * size + xx == y * size + x {
                        lemma_row_col_unique(yy, xx, y as int, x as int, size as int);
                    }
                }
            }
            let i = (block_y + y) * stride + (block_x + x);
            assert(i == block_index(b as int, per_row as int, size as int, stride as int, x as int, y as int));
            blk[y * size + x] = plane[i];
            x += 1;
        }
        y += 1;
    }
}

/// Write `blk` into block `b` of `plane`, row by row; the other blocks keep
/// their samples.
pub(crate) fn scatter_block(plane: &mut [u8], b: usize, per_row: usize, size: usize, stride: usize, blk: &[u8])
    requires
        layout_ok(per_row as int, size as int, stride as int, old(plane)@.len() as int),
        b < per_row * per_row,
        blk@.len() == size * size,
    ensures
        final(plane)@.len() == old(plane)@.len(),
        forall|y: int, x: int| 0 <= y < size && 0 <= x < size ==>
            final(plane)@[#[trigger] block_index(b as int, per_row as int, size as int, stride as int, x, y)]
                == blk@[y * size + x],
        forall|b2: int, y: int, x: int| 0 <= b2 < per_row * per_row && b2 != b && 0 <= y < size && 0 <= x < size ==>
            final(plane)@[#[trigger] block_index(b2, per_row as int, size as int, stride as int, x, y)]
                == old(plane)@[block_index(b2, per_row as int, size as int, stride as int, x, y)],
{
    let ghost before = plane@;
    let len = plane.len();
    let blen = blk.len();
    proof {
        lemma_block_bounds(b as int, per_row as int, size as int, stride as int, plane@.len() as int, 0, 0);
    }
    let block_y = (b / per_row) * size;
    let block_x = (b % per_row) * size;
    let mut y: usize = 0;
    while y < size
        invariant
            layout_ok(per_row as int, size as int, stride as int, plane@.len() as int),
            len == plane@.len(),
            blen == blk@.len(),
            before.len() == plane@.len(),
            b < per_row * per_row,
            block_y == (b / per_row) * size,
            block_x == (b % per_row) * size,
            y <= size,
            blk@.len() == size * size,
            forall|yy: int, xx: int| 0 <= yy < y && 0 <= xx < size ==>
                plane@[#[trigger] block_index(b as int, per_row as int, size as int, stride as int, xx, yy)]
                    == blk@[yy * size + xx],
            forall|b2: int, yy: int, xx: int| 0 <= b2 < per_row * per_row && b2 != b && 0 <= yy < size && 0 <= xx < size ==>
                plane@[#[trigger] block_index(b2, per_row as int, size as int, stride as int, xx, yy)]
                    == before[block_index(b2, per_row as int, size as int, stride as int, xx, yy)],
        decreases size - y,
    {
        let mut x: usize = 0;
        while x < size
            invariant
                layout_ok(per_row as int, size as int, stride as int, plane@.len() as int),
                len == plane@.len(),
                blen == blk@.len(),
            blen == blk@.len(),
            len == plane@.len(),
            blen == blk@.len(),
                before.len() == plane@.len(),
                b < per_row * per_row,
                block_y == (b / per_row) * size,
                block_x == (b % per_row) * size,
                y < size,
                x <= size,
                blk@.len() == size * size,
                forall|yy: int, xx: int| 0 <= xx < size && (0 <= yy < y || (yy == y && xx < x)) ==>
                    plane@[#[trigger] block_index(b as int, per_row as int, size as int, stride as int, xx, yy)]
                        == blk@[yy * size + xx],
                forall|b2: int, yy: int, xx: int| 0 <= b2 < per_row * per_row && b2 != b && 0 <= yy < size && 0 <= xx < size ==>
                    plane@[#[trigger] block_index(b2, per_row as int, size as int, stride as int, xx, yy)]
                        == before[block_index(b2, per_row as int, size as int, stride as int, xx, yy)],
            decreases size - x,
        {
            let ghost i0 = block_index(b as int, per_row as int, size as int, stride as int, x as int, y as int);
            proof {
                lemma_block_bounds(b as int, per_row as int, size as int, stride as int, plane@.len() as int, x as int, y as int);
                assert forall|b2: int, yy: int, xx: int| 0 <= b2 < per_row * per_row && b2 != b && 0 <= yy < size && 0 <= xx < size implies
                    #[trigger] block_index(b2, per_row as int, size as int, stride as int, xx, yy) != i0
                    && 0 <= block_index(b2, per_row as int, size as int, stride as int, xx, yy) < plane@.len() by {
                    lemma_block_bounds(b2, per_row as int, size as int, stride as int, plane@.len() as int, xx, yy);
                    if block_index(b2, per_row as int, size as int, stride as int, xx, yy) == i0 {
                        lemma_block_index(b2, xx, yy, b as int, x as int, y as int, per_row as int, size as int, stride as int);
                    }
                }
                assert forall|yy: int, xx: int| 0 <= xx < size && (0 <= yy < y || (yy == y && xx < x)) implies
                    #[trigger] block_index(b as int, per_row as int, size as int, stride as int, xx, yy) != i0
                    && 0 <= block_index(b as int, per_row as int, size as int, stride as int, xx, yy) < plane@.len() by {
                    lemma_block_bounds(b as int, per_row as int, size as int, stride as int, plane@.len() as int, xx, yy);
                    if block_index(b as int, per_row as int, size as int, stride as int, xx, yy) == i0 {
                        lemma_block_index(b as int, xx, yy, b as int, x as int, y as int, per_row as int, size as int, stride as int);
                    }
                }
            }
            let i = (block_y + y) * stride + (block_x + x);
            assert(i == i0);
            plane[i] = blk[y * size + x];
            x += 1;
        }
        y += 1;
    }
}

/// Reconstruct the 16 4x4 blocks of a 16x16 luma block.
pub fn reconstruct_luma_4x4(coeffs_4x4: &[[i16; 16]; 16], prediction: &[u8; 256], output: &mut [u8; 256]) -> (r: Result<()>)
    ensures
        r is Ok,
        blocks_reconstructed(final(output)@, prediction@, |b: int| idct4(coeffs_4x4@[b]@), 16, 4, 4, 16),
{
    let mut block_idx: usize = 0;
    while block_idx < 16
        invariant
            block_idx <= 16,
            output@.len() == 256,
            forall|b: int, y: int, x: int| 0 <= b < block_idx && 0 <= y < 4 && 0 <= x < 4 ==>
                output@[#[trigger] block_index(b, 4, 4, 16, x, y)]
                    == clip_pixel(prediction@[block_index(b, 4, 4, 16, x, y)] + idct4(coeffs_4x4@[b]@)[y * 4 + x]) as u8,
        decreases 16 - block_idx,
    {
        let mut pred_block = [0u8; 16];
        gather_block(prediction, block_idx, 4, 4, 16, &mut pred_block);
        let mut out_block = [0u8; 16];
        reconstruct_4x4_block(&coeffs_4x4[block_idx], &pred_block, &mut out_block)?;
        let ghost before = output@;
        scatter_block(output, block_idx, 4, 4, 16, &out_block);
        proof {
            assert forall|b: int, y: int, x: int| 0 <= b < block_idx + 1 && 0 <= y < 4 && 0 <= x < 4 implies
                output@[#[trigger] block_index(b, 4, 4, 16, x, y)]
                    == clip_pixel(prediction@[block_index(b, 4, 4, 16, x, y)] + idct4(coeffs_4x4@[b]@)[y * 4 + x]) as u8 by {
                if b == block_idx {
                    assert(out_block@[y * 4 + x] == clip_pixel(pred_block@[y * 4 + x] + as_ints(idct4(coeffs_4x4@[b]@))[y * 4 + x]) as u8);
                } else {
                    assert(output@[block_index(b, 4, 4, 16, x, y)] == before[block_index(b, 4, 4, 16, x, y)]);
                }
            }
        }
        block_idx += 1;
    }
    Ok(())
}

/// Reconstruct the four 8x8 blocks of a 16x16 luma block.
pub fn reconstruct_luma_8x8(coeffs_8x8: &[[i16; 64]; 4], prediction: &[u8; 256], output: &mut [u8; 256]) -> (r: Result<()>)
    ensures
        r is Ok,
        blocks_reconstructed(final(output)@, prediction@, |b: int| idct8(coeffs_8x8@[b]@), 4, 2, 8, 16),
{
    let mut block_idx: usize = 0;
    while block_idx < 4
        invariant
            block_idx <= 4,
            output@.len() == 256,
            forall|b: int, y: int, x: int| 0 <= b < block_idx && 0 <= y < 8 && 0 <= x < 8 ==>
                output@[#[trigger] block_index(b, 2, 8, 16, x, y)]
                    == clip_pixel(prediction@[block_index(b, 2, 8, 16, x, y)] + idct8(coeffs_8x8@[b]@)[y * 8 + x]) as u8,
        decreases 4 - block_idx,
    {
        let mut pred_block = [0u8; 64];
        gather_block(prediction, block_idx, 2, 8, 16, &mut pred_block);
        let mut out_block = [0u8; 64];
        reconstruct_8x8_block(&coeffs_8x8[block_idx], &pred_block, &mut out_block)?;
        let ghost before = output@;
        scatter_block(output, block_idx, 2, 8, 16, &out_block);
        proof {
            assert forall|b: int, y: int, x: int| 0 <= b < block_idx + 1 && 0 <= y < 8 && 0 <= x < 8 implies
                output@[#[trigger] block_index(b, 2, 8, 16, x, y)]
                    == clip_pixel(prediction@[block_index(b, 2, 8, 16, x, y)] + idct8(coeffs_8x8@[b]@)[y * 8 + x]) as u8 by {
                if b == block_idx {
                    assert(out_block@[y * 8 + x] == clip_pixel(pred_block@[y * 8 + x] + as_ints(idct8(coeffs_8x8@[b]@))[y * 8 + x]) as u8);
                } else {
                    assert(output@[block_index(b, 2, 8, 16, x, y)] == before[block_index(b, 2, 8, 16, x, y)]);
                }
            }
        }
        block_idx += 1;
    }
    Ok(())
}

/// Reconstruct the four 4x4 blocks of an 8x8 chroma block.
pub fn reconstruct_chroma_4x4(coeffs_4x4: &[[i16; 16]; 4], prediction: &[u8; 64], output: &mut [u8; 64]) -> (r: Result<()>)
    ensures
        r is Ok,
        blocks_reconstructed(final(output)@, prediction@, |b: int| idct4(coeffs_4x4@[b]@), 4, 2, 4, 8),
{
    let mut block_idx: usize = 0;
    while block_idx < 4
        invariant
            block_idx <= 4,
            output@.len() == 64,
            forall|b: int, y: int, x: int| 0 <= b < block_idx && 0 <= y < 4 && 0 <= x < 4 ==>
                output@[#[trigger] block_index(b, 2, 4, 8, x, y)]
                    == clip_pixel(prediction@[block_index(b, 2, 4, 8, x, y)] + idct4(coeffs_4x4@[b]@)[y * 4 + x]) as u8,
        decreases 4 - block_idx,
    {
        let mut pred_block = [0u8; 16];
        gather_block(prediction, block_idx, 2, 4, 8, &mut pred_block);
        let mut out_block = [0u8; 16];
        reconstruct_4x4_block(&coeffs_4x4[block_idx], &pred_block, &mut out_block)?;
        let ghost before = output@;
        scatter_block(output, block_idx, 2, 4, 8, &out_block);
        proof {
            assert forall|b: int, y: int, x: int| 0 <= b < block_idx + 1 && 0 <= y < 4 && 0 <= x < 4 implies
                output@[#[trigger] block_index(b, 2, 4, 8, x, y)]
                    == clip_pixel(prediction@[block_index(b, 2, 4, 8, x, y)] + idct4(coeffs_4x4@[b]@)[y * 4 + x]) as u8 by {
                if b == block_idx {
                    assert(out_block@[y * 4 + x] == clip_pixel(pred_block@[y * 4 + x] + as_ints(idct4(coeffs_4x4@[b]@))[y * 4 + x]) as u8);
                } else {
                    assert(output@[block_index(b, 2, 4, 8, x, y)] == before[block_index(b, 2, 4, 8, x, y)]);
                }
            }
        }
        block_idx += 1;
    }
    Ok(())
}

/// A skipped macroblock is its prediction, with no residual.
pub fn reconstruct_skip_mb(prediction: &ReconstructedMb) -> (m: ReconstructedMb)
    ensures
        m == *prediction,
{
    *prediction
}

/// Every sample of a square plane lies in exactly one block: sample `i` is
/// sample `(i % stride % size, i / stride % size)` of block
/// `(i / stride / size) * per_row + i % stride / size`.
pub proof fn lemma_blocks_cover(i: int, per_row: int, size: int, stride: int, len: int)
    requires
        layout_ok(per_row, size, stride, len),
        0 <= i < len,
    ensures
        ({
            let b = (i / stride / size) * per_row + (i % stride) / size;
            &&& 0 <= b < per_row * per_row
            &&& block_index(b, per_row, size, stride, (i % stride) % size, (i / stride) % size) == i
        }),
{
    let row = i / stride;
    let col = i % stride;
    let br = row / size;
    let bc = col / size;
    let b = br * per_row + bc;
    assert(stride >= 1) by (nonlinear_arith)
        requires stride == per_row * size, per_row >= 1, size >= 1;
    vstd::arithmetic::div_mod::lemma_fundamental_div_mod(i, stride);
    vstd::arithmetic::div_mod::lemma_fundamental_div_mod(row, size);
    vstd::arithmetic::div_mod::lemma_fundamental_div_mod(col, size);
    vstd::arithmetic::div_mod::lemma_mod_bound(i, stride);
    vstd::arithmetic::div_mod::lemma_mod_bound(row, size);
    vstd::arithmetic::div_mod::lemma_mod_bound(col, size);
    vstd::arithmetic::div_mod::lemma_div_pos_is_pos(i, stride);
    vstd::arithmetic::div_mod::lemma_div_pos_is_pos(row, size);
    vstd::arithmetic::div_mod::lemma_div_pos_is_pos(col, size);
    assert(row < stride) by {
        vstd::arithmetic::div_mod::lemma_multiply_divide_lt(i, stride, stride);
    }
    assert(stride == size * per_row) by (nonlinear_arith)
        requires stride == per_row * size;
    assert(br < per_row) by {
        vstd::arithmetic::div_mod::lemma_multiply_divide_lt(row, size, per_row);
    }
    assert(bc < per_row) by {
        vstd::arithmetic::div_mod::lemma_multiply_divide_lt(col, size, per_row);
    }
    assert(0 <= b < per_row * per_row) by (nonlinear_arith)
        requires b == br * per_row + bc, 0 <= br < per_row, 0 <= bc < per_row;
    vstd::arithmetic::div_mod::lemma_fundamental_div_mod_converse(b, per_row, br, bc);
    assert(block_index(b, per_row, size, stride, col % size, row % size) == i) by (nonlinear_arith)
        requires
            b / per_row == br,
            b % per_row == bc,
            row == size * br + row % size,
            col == size * bc + col % size,
            i == stride * row + col;
}

} // verus!
