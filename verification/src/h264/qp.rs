//! Quantization parameters: slice QP, per-macroblock QP updates, the chroma QP
//! mapping and the dequantization scale of transform coefficients.
use vstd::prelude::*;
use vstd::arithmetic::power2::{pow2, lemma2_to64};
use crate::error::{Error, Result};
use super::arith::clip3;

verus! {

/// The chroma QP for a clipped index `qpi` in `[0, 51]`: the identity below 30,
/// then the saturating part of the table.
pub open spec fn chroma_qp_of_index(qpi: int) -> int {
    if qpi < 30 { qpi }
    else if qpi <= 33 { qpi - 1 }
    else if qpi == 34 { 32 }
    else if qpi == 35 { 33 }
    else if qpi <= 37 { 34 }
    else if qpi <= 39 { 35 }
    else if qpi <= 41 { 36 }
    else if qpi <= 44 { 37 }
    else if qpi <= 47 { 38 }
    else { 39 }
}

/// The chroma QP of luma QP `qp_y` under the index offset `offset`.
pub open spec fn chroma_qp(qp_y: int, offset: int) -> int {
    chroma_qp_of_index(clip3(0, 51, qp_y + offset))
}

/// Row `r` of the level scale table at `m = qp % 6`.
pub open spec fn level_scale(r: int, m: int) -> int {
    if r == 0 {
        if m == 0 { 10 } else if m == 1 { 11 } else if m == 2 { 13 } else if m == 3 { 14 }
        else if m == 4 { 16 } else { 18 }
    } else if r == 1 {
        if m == 0 { 11 } else if m == 1 { 12 } else if m == 2 { 14 } else if m == 3 { 16 }
        else if m == 4 { 18 } else { 20 }
    } else {
        if m == 0 { 13 } else if m == 1 { 14 } else if m == 2 { 16 } else if m == 3 { 18 }
        else if m == 4 { 20 } else { 23 }
    }
}

/// The 4x4 position weight: 10 where both indices are even, 16 where both are odd,
/// 13 elsewhere.
pub open spec fn weight_4x4(i: int, j: int) -> int {
    if i % 2 == 0 && j % 2 == 0 { 10 } else if i % 2 == 1 && j % 2 == 1 { 16 } else { 13 }
}

/// The 8x8 position weight: 20 where both indices are even, 16 where both are odd,
/// 18 elsewhere.
pub open spec fn weight_8x8(i: int, j: int) -> int {
    if i % 2 == 0 && j % 2 == 0 { 20 } else if i % 2 == 1 && j % 2 == 1 { 16 } else { 18 }
}

/// The dequantization scale at position `(i, j)` for `qp` (clipped to `[0, 51]`):
/// level scale times position weight, shifted left by `qp / 6`.
pub open spec fn dequant_scale(qp: int, i: int, j: int) -> int {
    let q = clip3(0, 51, qp);
    if i < 4 && j < 4 {
        let row = if (i % 3) * 2 + (j % 3) < 6 { i % 3 } else { 0 };
        level_scale(row, q % 6) * weight_4x4(i, j) * pow2((q / 6) as nat)
    } else {
        let i8 = if i < 7 { i } else { 7 };
        let j8 = if j < 7 { j } else { 7 };
        level_scale(0, q % 6) * weight_8x8(i8, j8) * pow2((q / 6) as nat)
    }
}

/// The level scale of row `row` at `q`, shifted by `q / 6`.
pub open spec fn shifted_level(row: int, q: int) -> int {
    level_scale(row, q % 6) * pow2((q / 6) as nat)
}

/// One more step of `q` raises the shifted level scale.
proof fn lemma_shifted_level_step(row: int, q: int)
    requires
        0 <= q,
    ensures
        0 < shifted_level(row, q) < shifted_level(row, q + 1),
{
    let k = q / 6;
    let m = q % 6;
    let p = pow2(k as nat);
    vstd::arithmetic::power2::lemma_pow2_pos(k as nat);
    vstd::arithmetic::power2::lemma_pow2_unfold((k + 1) as nat);
    let l0 = level_scale(row, m);
    assert(l0 > 0);
    assert(l0 * p > 0) by (nonlinear_arith) requires l0 > 0, p > 0;
    if m < 5 {
        assert((q + 1) / 6 == k && (q + 1) % 6 == m + 1);
        let l1 = level_scale(row, m + 1);
        assert(l0 < l1);
        assert(l0 * p < l1 * p) by (nonlinear_arith) requires l0 < l1, p > 0;
    } else {
        assert((q + 1) / 6 == k + 1 && (q + 1) % 6 == 0);
        let l1 = level_scale(row, 0);
        assert(l0 < 2 * l1);
        assert(pow2((k + 1) as nat) == 2 * p);
        assert(l0 * p < l1 * (2 * p)) by (nonlinear_arith) requires l0 < 2 * l1, p > 0;
    }
}

/// The shifted level scale grows with `q`.
proof fn lemma_shifted_level_monotone(row: int, q1: int, q2: int)
    requires
        0 <= q1 <= q2,
    ensures
        0 < shifted_level(row, q1) <= shifted_level(row, q2),
        q1 < q2 ==> shifted_level(row, q1) < shifted_level(row, q2),
    decreases q2 - q1,
{
    lemma_shifted_level_step(row, q1);
    if q1 < q2 {
        lemma_shifted_level_monotone(row, q1 + 1, q2);
    }
}

/// The dequantization scale grows with the QP: at any position a larger QP gives
/// a scale at least as large, and strictly larger within the clipping range.
pub proof fn lemma_dequant_scale_monotone(qp1: int, qp2: int, i: int, j: int)
    requires
        qp1 <= qp2,
        0 <= i,
        0 <= j,
    ensures
        0 < dequant_scale(qp1, i, j) <= dequant_scale(qp2, i, j),
        0 <= qp1 < qp2 <= 51 ==> dequant_scale(qp1, i, j) < dequant_scale(qp2, i, j),
{
    let q1 = clip3(0, 51, qp1);
    let q2 = clip3(0, 51, qp2);
    let row = if i < 4 && j < 4 { if (i % 3) * 2 + (j % 3) < 6 { i % 3 } else { 0 } } else { 0 };
    let w = if i < 4 && j < 4 { weight_4x4(i, j) } else {
        weight_8x8(if i < 7 { i } else { 7 }, if j < 7 { j } else { 7 })
    };
    lemma_shifted_level_monotone(row, q1, q2);
    let a = shifted_level(row, q1);
    let b = shifted_level(row, q2);
    assert(w > 0);
    assert(dequant_scale(qp1, i, j) == level_scale(row, q1 % 6) * w * pow2((q1 / 6) as nat));
    assert(dequant_scale(qp2, i, j) == level_scale(row, q2 % 6) * w * pow2((q2 / 6) as nat));
    assert(level_scale(row, q1 % 6) * w * pow2((q1 / 6) as nat) == a * w) by (nonlinear_arith)
        requires a == level_scale(row, q1 % 6) * pow2((q1 / 6) as nat);
    assert(level_scale(row, q2 % 6) * w * pow2((q2 / 6) as nat) == b * w) by (nonlinear_arith)
        requires b == level_scale(row, q2 % 6) * pow2((q2 / 6) as nat);
    assert(0 < a * w <= b * w) by (nonlinear_arith) requires 0 < a <= b, w > 0;
    if 0 <= qp1 < qp2 <= 51 {
        assert(a * w < b * w) by (nonlinear_arith) requires a < b, w > 0;
    }
}

/// `x` saturated to the range of `i16`.
pub open spec fn sat_i16(x: int) -> int {
    clip3(-32768, 32767, x)
}

/// The dequantized value of coefficient `c`: zero stays zero, otherwise
/// `(c * scale) >> 4` saturated to `i16`.
pub open spec fn dequant_value(c: int, qp: int, i: int, j: int) -> int {
    if c == 0 { 0 } else { sat_i16((c * dequant_scale(qp, i, j)) / 16) }
}

/// The product of a coefficient and its scale fits in `i32`.
pub open spec fn dequant_fits(c: int, qp: int, i: int, j: int) -> bool {
    i32::MIN <= c * dequant_scale(qp, i, j) <= i32::MAX
}

/// The luma QP after a macroblock QP delta: `(prev + delta + 52) % 52`, where a
/// negative sum gives 0.
pub open spec fn next_qp(prev: int, delta: int) -> int {
    let s = prev + delta + 52;
    if s >= 0 { s % 52 } else { 0 }
}

/// Per-macroblock quantization parameters.
#[derive(Debug, Clone, Copy)]
pub struct QpState {
    pub qp_y: i32,
    pub qp_cb: i32,
    pub qp_cr: i32,
    pub qp_y_prev: i32,
}

impl QpState {
    /// The state at the start of a slice with luma QP `slice_qp_y`.
    pub fn new(slice_qp_y: i32, chroma_qp_index_offset: i32, second_chroma_qp_index_offset: i32) -> (s: QpState)
        requires
            i32::MIN <= slice_qp_y + chroma_qp_index_offset <= i32::MAX,
            i32::MIN <= slice_qp_y + second_chroma_qp_index_offset <= i32::MAX,
        ensures
            s.qp_y == slice_qp_y,
            s.qp_y_prev == slice_qp_y,
            s.qp_cb == chroma_qp(slice_qp_y as int, chroma_qp_index_offset as int),
            s.qp_cr == chroma_qp(slice_qp_y as int, second_chroma_qp_index_offset as int),
    {
        let qp_cb = map_luma_to_chroma_qp(slice_qp_y, chroma_qp_index_offset);
        let qp_cr = map_luma_to_chroma_qp(slice_qp_y, second_chroma_qp_index_offset);
        QpState { qp_y: slice_qp_y, qp_cb, qp_cr, qp_y_prev: slice_qp_y }
    }

    /// Apply `mb_qp_delta`: the new luma QP wraps modulo 52 and becomes the previous
    /// QP for the next macroblock; the chroma QPs follow it.
    pub fn update_with_delta(&mut self, mb_qp_delta: i32, chroma_qp_index_offset: i32, second_chroma_qp_index_offset: i32)
        requires
            i32::MIN <= old(self).qp_y_prev + mb_qp_delta <= i32::MAX,
            i32::MIN <= old(self).qp_y_prev + mb_qp_delta + 52 <= i32::MAX,
            next_qp(old(self).qp_y_prev as int, mb_qp_delta as int) + chroma_qp_index_offset <= i32::MAX,
            next_qp(old(self).qp_y_prev as int, mb_qp_delta as int) + second_chroma_qp_index_offset <= i32::MAX,
        ensures
            final(self).qp_y == next_qp(old(self).qp_y_prev as int, mb_qp_delta as int),
            final(self).qp_y_prev == final(self).qp_y,
            final(self).qp_cb == chroma_qp(final(self).qp_y as int, chroma_qp_index_offset as int),
            final(self).qp_cr == chroma_qp(final(self).qp_y as int, second_chroma_qp_index_offset as int),
    {
        let s = self.qp_y_prev + mb_qp_delta + 52;
        let q = if s >= 0 { s % 52 } else { 0 };
        self.qp_y = q;
        self.qp_y_prev = q;
        self.qp_cb = map_luma_to_chroma_qp(q, chroma_qp_index_offset);
        self.qp_cr = map_luma_to_chroma_qp(q, second_chroma_qp_index_offset);
    }

    /// The luma dequantization scale at `(i, j)`.
    pub fn get_luma_scale(&self, i: usize, j: usize) -> (r: i32)
        ensures
            r == dequant_scale(self.qp_y as int, i as int, j as int),
    {
        get_dequant_scale(self.qp_y, i, j)
    }

    /// The Cb dequantization scale at `(i, j)`.
    pub fn get_cb_scale(&self, i: usize, j: usize) -> (r: i32)
        ensures
            r == dequant_scale(self.qp_cb as int, i as int, j as int),
    {
        get_dequant_scale(self.qp_cb, i, j)
    }

    /// The Cr dequantization scale at `(i, j)`.
    pub fn get_cr_scale(&self, i: usize, j: usize) -> (r: i32)
        ensures
            r == dequant_scale(self.qp_cr as int, i as int, j as int),
    {
        get_dequant_scale(self.qp_cr, i, j)
    }
}

/// The chroma QP for luma QP `qp_y` and index offset `qp_offset`: the sum is clipped
/// to `[0, 51]` and mapped through the chroma QP table.
pub fn map_luma_to_chroma_qp(qp_y: i32, qp_offset: i32) -> (r: i32)
    requires
        i32::MIN <= qp_y + qp_offset <= i32::MAX,
    ensures
        r == chroma_qp(qp_y as int, qp_offset as int),
        0 <= r <= 39,
{
    let s = qp_y + qp_offset;
    let qpi = if s < 0 { 0 } else if s > 51 { 51 } else { s };
    if qpi < 30 {
        qpi
    } else {
        match qpi {
            30 => 29,
            31 => 30,
            32 => 31,
            33 | 34 => 32,
            35 => 33,
            36 | 37 => 34,
            38 | 39 => 35,
            40 | 41 => 36,
            42 | 43 | 44 => 37,
            45 | 46 | 47 => 38,
            _ => 39,
        }
    }
}

fn level_scale_entry(row: usize, m: i32) -> (r: i32)
    requires
        row < 3,
        0 <= m < 6,
    ensures
        r == level_scale(row as int, m as int),
        10 <= r <= 23,
{
    if row == 0 {
        match m { 0 => 10, 1 => 11, 2 => 13, 3 => 14, 4 => 16, _ => 18 }
    } else if row == 1 {
        match m { 0 => 11, 1 => 12, 2 => 14, 3 => 16, 4 => 18, _ => 20 }
    } else {
        match m { 0 => 13, 1 => 14, 2 => 16, 3 => 18, 4 => 20, _ => 23 }
    }
}

fn pow2_upto_8(k: i32) -> (r: i32)
    requires
        0 <= k <= 8,
    ensures
        r == pow2(k as nat),
        1 <= r <= 256,
{
    proof {
        lemma2_to64();
    }
    match k { 0 => 1, 1 => 2, 2 => 4, 3 => 8, 4 => 16, 5 => 32, 6 => 64, 7 => 128, _ => 256 }
}

/// The dequantization scale at `(i, j)` for `qp`, which is first clipped to `[0, 51]`.
pub fn get_dequant_scale(qp: i32, i: usize, j: usize) -> (r: i32)
    ensures
        r == dequant_scale(qp as int, i as int, j as int),
        0 < r <= 23 * 20 * 256,
{
    let q: i32 = if qp < 0 { 0 } else if qp > 51 { 51 } else { qp };
    let m = q % 6;
    let p = pow2_upto_8(q / 6);
    if i < 4 && j < 4 {
        let v: i32 = if i % 2 == 0 && j % 2 == 0 { 10 } else if i % 2 == 1 && j % 2 == 1 { 16 } else { 13 };
        let row: usize = if (i % 3) * 2 + (j % 3) < 6 { i % 3 } else { 0 };
        let l = level_scale_entry(row, m);
        assert(0 < l * v <= 23 * 20 && 0 < l * v * p <= 23 * 20 * 256) by (nonlinear_arith)
            requires 10 <= l <= 23, 10 <= v <= 16, 1 <= p <= 256;
        l * v * p
    } else {
        let i8: usize = if i < 7 { i } else { 7 };
        let j8: usize = if j < 7 { j } else { 7 };
        let v: i32 = if i8 % 2 == 0 && j8 % 2 == 0 { 20 } else if i8 % 2 == 1 && j8 % 2 == 1 { 16 } else { 18 };
        let l = level_scale_entry(0, m);
        assert(0 < l * v <= 23 * 20 && 0 < l * v * p <= 23 * 20 * 256) by (nonlinear_arith)
            requires 10 <= l <= 23, 16 <= v <= 20, 1 <= p <= 256;
        l * v * p
    }
}

/// Dequantize one coefficient: zero stays zero, otherwise the product with the
/// scale is shifted right by 4 and saturated to `i16`.
pub fn dequantize_coeff(coeff: i16, qp: i32, i: usize, j: usize) -> (r: i16)
    requires
        dequant_fits(coeff as int, qp as int, i as int, j as int),
    ensures
        r == dequant_value(coeff as int, qp as int, i as int, j as int),
{
    if coeff == 0 {
        return 0;
    }
    let scale = get_dequant_scale(qp, i, j);
    let prod: i32 = (coeff as i32) * scale;
    let d: i32 = prod >> 4u32;
    assert(d == prod / 16) by (bit_vector)
        requires d == prod >> 4u32;
    if d < -32768 {
        -32768
    } else if d > 32767 {
        32767
    } else {
        d as i16
    }
}

/// Dequantize a 4x4 block in raster order.
pub fn dequantize_block_4x4(coeffs: &[i16; 16], qp: i32, output: &mut [i16; 16])
    requires
        forall|k: int| 0 <= k < 16 ==> dequant_fits(#[trigger] coeffs@[k] as int, qp as int, k / 4, k % 4),
    ensures
        forall|k: int| 0 <= k < 16 ==>
            #[trigger] final(output)@[k] == dequant_value(coeffs@[k] as int, qp as int, k / 4, k % 4),
{
    let mut idx: usize = 0;
    while idx < 16
        invariant
            0 <= idx <= 16,
            forall|k: int| 0 <= k < 16 ==> dequant_fits(#[trigger] coeffs@[k] as int, qp as int, k / 4, k % 4),
            forall|k: int| 0 <= k < idx ==>
                #[trigger] output@[k] == dequant_value(coeffs@[k] as int, qp as int, k / 4, k % 4),
        decreases 16 - idx,
    {
        let v = dequantize_coeff(coeffs[idx], qp, idx / 4, idx % 4);
        output[idx] = v;
        idx = idx + 1;
    }
}

/// Dequantize an 8x8 block in raster order.
pub fn dequantize_block_8x8(coeffs: &[i16; 64], qp: i32, output: &mut [i16; 64])
    requires
        forall|k: int| 0 <= k < 64 ==> dequant_fits(#[trigger] coeffs@[k] as int, qp as int, k / 8, k % 8),
    ensures
        forall|k: int| 0 <= k < 64 ==>
            #[trigger] final(output)@[k] == dequant_value(coeffs@[k] as int, qp as int, k / 8, k % 8),
{
    let mut idx: usize = 0;
    while idx < 64
        invariant
            0 <= idx <= 64,
            forall|k: int| 0 <= k < 64 ==> dequant_fits(#[trigger] coeffs@[k] as int, qp as int, k / 8, k % 8),
            forall|k: int| 0 <= k < idx ==>
                #[trigger] output@[k] == dequant_value(coeffs@[k] as int, qp as int, k / 8, k % 8),
        decreases 64 - idx,
    {
        let v = dequantize_coeff(coeffs[idx], qp, idx / 8, idx % 8);
        output[idx] = v;
        idx = idx + 1;
    }
}

/// The slice QP `26 + pic_init_qp_minus26 + slice_qp_delta`, which must lie in
/// `[0, 51]`.
pub fn calc_slice_qp(pic_init_qp_minus26: i32, slice_qp_delta: i32) -> (r: Result<i32>)
    requires
        i32::MIN <= 26 + pic_init_qp_minus26 <= i32::MAX,
        i32::MIN <= 26 + pic_init_qp_minus26 + slice_qp_delta <= i32::MAX,
    ensures
        (0 <= 26 + pic_init_qp_minus26 + slice_qp_delta <= 51) <==> r is Ok,
        r matches Ok(q) ==> q == 26 + pic_init_qp_minus26 + slice_qp_delta,
        r matches Err(e) ==> e.is_invalid(),
{
    let slice_qp = 26 + pic_init_qp_minus26 + slice_qp_delta;
    if slice_qp < 0 || slice_qp > 51 {
        return Err(Error::invalid("QP", "Slice QP out of range [0, 51]"));
    }
    Ok(slice_qp)
}

/// Whatever the previous QP and delta, the luma QP after an update lies in `[0, 51]`.
pub proof fn lemma_next_qp_in_range(prev: int, delta: int)
    ensures
        0 <= next_qp(prev, delta) <= 51,
{
}

/// The chroma QP lies in `[0, 39]` and does not decrease as the luma QP grows.
pub proof fn lemma_chroma_qp_monotone(qp1: int, qp2: int, offset: int)
    requires
        qp1 <= qp2,
    ensures
        0 <= chroma_qp(qp1, offset) <= chroma_qp(qp2, offset) <= 39,
{
}

} // verus!
