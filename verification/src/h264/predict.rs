//! Intra prediction of 4x4 and 16x16 luma blocks, and inter prediction of a block
//! at a position plus a motion vector.
use vstd::prelude::*;
use crate::error::{Error, Result};
use super::arith::{avg2, avg3, mean2, mean3, asr, clip_pixel, clip_u8};
use super::motion::{interpolate_luma_qpel, qpel_int, block_in_source, block_written};
use vstd::arithmetic::power2::{pow2, lemma2_to64};

verus! {

/// Intra 4x4 prediction modes.
#[derive(Debug, Clone, Copy, PartialEq, Eq, Structural)]
pub enum Intra4x4Mode {
    Vertical,
    Horizontal,
    Dc,
    DiagonalDownLeft,
    DiagonalDownRight,
    VerticalRight,
    HorizontalDown,
    VerticalLeft,
    HorizontalUp,
}

/// Intra 16x16 prediction modes.
#[derive(Debug, Clone, Copy, PartialEq, Eq, Structural)]
pub enum Intra16x16Mode {
    Vertical,
    Horizontal,
    Dc,
    Plane,
}

/// The 4x4 block predicted in `mode` from the corner `m`, the samples `a`..`d`
/// above and `i`..`l` to the left, in raster order.
pub open spec fn intra4x4_block(mode: Intra4x4Mode, m: int, a: int, b: int, c: int, d: int,
    i: int, j: int, k: int, l: int) -> Seq<int> {
    match mode {
        Intra4x4Mode::Vertical => seq![a, b, c, d, a, b, c, d, a, b, c, d, a, b, c, d],
        Intra4x4Mode::Horizontal => seq![i, i, i, i, j, j, j, j, k, k, k, k, l, l, l, l],
        Intra4x4Mode::Dc => {
            let dc = (a + b + c + d + i + j + k + l + 4) / 8;
            seq![dc, dc, dc, dc, dc, dc, dc, dc, dc, dc, dc, dc, dc, dc, dc, dc]
        },
        Intra4x4Mode::DiagonalDownLeft => {
            let s0 = mean3(a, b, c);
            let s1 = mean3(b, c, d);
            let s2 = mean3(c, d, d);
            seq![s0, s1, s2, d, s1, s2, d, d, s2, d, d, d, d, d, d, d]
        },
        Intra4x4Mode::DiagonalDownRight => {
            let e0 = mean3(m, i, j);
            let e1 = mean3(i, m, a);
            let e2 = mean3(m, a, b);
            let e3 = mean3(a, b, c);
            let w1 = mean3(i, j, k);
            let w2 = mean3(j, k, l);
            let w3 = mean3(k, l, l);
            seq![e0, e1, e2, e3, w1, e0, e1, e2, w2, w1, e0, e1, w3, w2, w1, e0]
        },
        Intra4x4Mode::VerticalRight => {
            let r5 = mean3(m, a, b);
            let r6 = mean3(a, b, c);
            let r8 = mean3(m, i, j);
            let r9 = mean3(i, m, a);
            seq![mean2(a, m), mean2(b, a), mean2(c, b), mean2(d, c),
                r9, r5, r6, mean3(b, c, d),
                r8, r9, r5, r6,
                mean3(i, j, k), r8, r9, r5]
        },
        Intra4x4Mode::HorizontalDown => {
            let r2 = mean3(m, a, b);
            let r5 = mean3(m, i, j);
            let r6 = mean3(i, m, a);
            let r9 = mean3(i, j, k);
            seq![mean2(m, i), r6, r2, mean3(a, b, c),
                mean2(i, j), r5, r6, r2,
                mean2(j, k), r9, r5, r6,
                mean2(k, l), mean3(j, k, l), r9, r5]
        },
        Intra4x4Mode::VerticalLeft => {
            let r1 = mean2(b, c);
            let r2 = mean2(c, d);
            let r5 = mean3(b, c, d);
            let r6 = mean3(c, d, d);
            seq![mean2(a, b), r1, r2, d,
                mean3(a, b, c), r5, r6, d,
                r1, r2, d, d,
                r5, r6, d, d]
        },
        Intra4x4Mode::HorizontalUp => {
            let r4 = mean2(j, k);
            let r5 = mean3(j, k, l);
            let r8 = mean2(k, l);
            let r9 = mean3(k, l, l);
            seq![mean2(i, j), mean3(i, j, k), r4, r5,
                r4, r5, r8, r9,
                r8, r9, l, l,
                l, l, l, l]
        },
    }
}

/// The 4x4 block predicted from the 13 neighbours `[M, A, B, C, D, I, J, K, L, ..]`.
pub open spec fn intra4x4_prediction(mode: Intra4x4Mode, n: Seq<u8>) -> Seq<int> {
    intra4x4_block(mode, n[0] as int, n[1] as int, n[2] as int, n[3] as int, n[4] as int,
        n[5] as int, n[6] as int, n[7] as int, n[8] as int)
}

/// The 16 predicted samples as bytes.
fn intra4x4_values(mode: Intra4x4Mode, m: u8, a: u8, b: u8, c: u8, d: u8, i: u8, j: u8, k: u8, l: u8)
    -> (r: [u8; 16])
    ensures
        forall|t: int| 0 <= t < 16 ==> r@[t] as int == #[trigger] intra4x4_block(mode,
            m as int, a as int, b as int, c as int, d as int, i as int, j as int, k as int, l as int)[t],
{
    let r: [u8; 16] = match mode {
        Intra4x4Mode::Vertical => [a, b, c, d, a, b, c, d, a, b, c, d, a, b, c, d],
        Intra4x4Mode::Horizontal => [i, i, i, i, j, j, j, j, k, k, k, k, l, l, l, l],
        Intra4x4Mode::Dc => {
            let sum: u16 = a as u16 + b as u16 + c as u16 + d as u16 + i as u16 + j as u16 + k as u16 + l as u16;
            let dc = ((sum + 4) / 8) as u8;
            [dc, dc, dc, dc, dc, dc, dc, dc, dc, dc, dc, dc, dc, dc, dc, dc]
        },
        Intra4x4Mode::DiagonalDownLeft => {
            let s0 = avg3(a, b, c);
            let s1 = avg3(b, c, d);
            let s2 = avg3(c, d, d);
            [s0, s1, s2, d, s1, s2, d, d, s2, d, d, d, d, d, d, d]
        },
        Intra4x4Mode::DiagonalDownRight => {
            let e0 = avg3(m, i, j);
            let e1 = avg3(i, m, a);
            let e2 = avg3(m, a, b);
            let e3 = avg3(a, b, c);
            let w1 = avg3(i, j, k);
            let w2 = avg3(j, k, l);
            let w3 = avg3(k, l, l);
            [e0, e1, e2, e3, w1, e0, e1, e2, w2, w1, e0, e1, w3, w2, w1, e0]
        },
        Intra4x4Mode::VerticalRight => {
            let r5 = avg3(m, a, b);
            let r6 = avg3(a, b, c);
            let r8 = avg3(m, i, j);
            let r9 = avg3(i, m, a);
            [avg2(a, m), avg2(b, a), avg2(c, b), avg2(d, c),
                r9, r5, r6, avg3(b, c, d),
                r8, r9, r5, r6,
                avg3(i, j, k), r8, r9, r5]
        },
        Intra4x4Mode::HorizontalDown => {
            let r2 = avg3(m, a, b);
            let r5 = avg3(m, i, j);
            let r6 = avg3(i, m, a);
            let r9 = avg3(i, j, k);
            [avg2(m, i), r6, r2, avg3(a, b, c),
                avg2(i, j), r5, r6, r2,
                avg2(j, k), r9, r5, r6,
                avg2(k, l), avg3(j, k, l), r9, r5]
        },
        Intra4x4Mode::VerticalLeft => {
            let r1 = avg2(b, c);
            let r2 = avg2(c, d);
            let r5 = avg3(b, c, d);
            let r6 = avg3(c, d, d);
            [avg2(a, b), r1, r2, d,
                avg3(a, b, c), r5, r6, d,
                r1, r2, d, d,
                r5, r6, d, d]
        },
        Intra4x4Mode::HorizontalUp => {
            let r4 = avg2(j, k);
            let r5 = avg3(j, k, l);
            let r8 = avg2(k, l);
            let r9 = avg3(k, l, l);
            [avg2(i, j), avg3(i, j, k), r4, r5,
                r4, r5, r8, r9,
                r8, r9, l, l,
                l, l, l, l]
        },
    };
    proof {
        let blk = intra4x4_block(mode, m as int, a as int, b as int, c as int, d as int,
            i as int, j as int, k as int, l as int);
        assert forall|t: int| 0 <= t < 16 implies r@[t] as int == #[trigger] blk[t] by {
            assert(r@[t] == r[t]);
        }
    }
    r
}

/// Predict a 4x4 block from its 13 neighbours `[M, A, B, C, D, I, J, K, L, ..]`
/// (M the corner, A to D above, I to L to the left) into the first 16 bytes of
/// `output`, in raster order. Fails, with `output` untouched, when fewer than 13
/// neighbours or 16 output bytes are given.
pub fn predict_intra_4x4(mode: Intra4x4Mode, neighbors: &[u8], output: &mut [u8]) -> (r: Result<()>)
    ensures
        final(output)@.len() == old(output)@.len(),
        r.is_ok() <==> (neighbors@.len() >= 13 && old(output)@.len() >= 16),
        r matches Err(e) ==> e.is_invalid(),
        r.is_err() ==> final(output)@ == old(output)@,
        r.is_ok() ==> forall|t: int| 0 <= t < 16 ==>
            final(output)@[t] as int == #[trigger] intra4x4_prediction(mode, neighbors@)[t],
        forall|t: int| 16 <= t < old(output)@.len() ==> #[trigger] final(output)@[t] == old(output)@[t],
{
    if neighbors.len() < 13 || output.len() < 16 {
        return Err(Error::invalid("intra_4x4", "Invalid buffer sizes"));
    }
    let vals = intra4x4_values(mode, neighbors[0], neighbors[1], neighbors[2], neighbors[3],
        neighbors[4], neighbors[5], neighbors[6], neighbors[7], neighbors[8]);
    let ghost pre = output@;
    let mut t: usize = 0;
    while t < 16
        invariant
            t <= 16,
            16 <= output@.len(),
            output@.len() == pre.len(),
            pre == old(output)@,
            forall|q: int| 0 <= q < 16 ==> vals@[q] as int == #[trigger] intra4x4_prediction(mode, neighbors@)[q],
            forall|q: int| 0 <= q < t ==> output@[q] == #[trigger] vals@[q],
            forall|q: int| 16 <= q < pre.len() ==> #[trigger] output@[q] == pre[q],
        decreases 16 - t,
    {
        output[t] = vals[t];
        t += 1;
    }
    Ok(())
}

/// The sum of the bytes of `s` from `lo` up to `hi`.
pub open spec fn byte_sum(s: Seq<u8>, lo: int, hi: int) -> int
    decreases hi - lo,
{
    if hi <= lo { 0 } else { byte_sum(s, lo, hi - 1) + s[hi - 1] as int }
}

/// The sample at offset `j` of a neighbour row or column starting at `base`; offset
/// -1 is the corner sample at index 32.
pub open spec fn plane_ref(n: Seq<u8>, base: int, j: int) -> int {
    if j < 0 { n[32] as int } else { n[base + j] as int }
}

/// The plane gradient over the first `count` terms: the sum of
/// `(t + 1) * (p[8 + t] - p[6 - t])` along the row or column at `base`.
pub open spec fn plane_gradient(n: Seq<u8>, base: int, count: int) -> int
    decreases count,
{
    if count <= 0 {
        0
    } else {
        plane_gradient(n, base, count - 1)
            + count * (n[base + 8 + count - 1] as int - plane_ref(n, base, 6 - (count - 1)))
    }
}

/// The plane-mode sample at column `x` and row `y`.
pub open spec fn plane_sample(n: Seq<u8>, x: int, y: int) -> int {
    let a = 16 * (n[15] as int + n[31] as int);
    let b = (5 * plane_gradient(n, 0, 8) + 32) / 64;
    let c = (5 * plane_gradient(n, 16, 8) + 32) / 64;
    clip_pixel((a + b * (x - 7) + c * (y - 7) + 16) / 32)
}

/// The 16x16 prediction at column `x`, row `y` from the 33 neighbours: 16 above,
/// 16 to the left, then the corner.
pub open spec fn intra16x16_sample(mode: Intra16x16Mode, n: Seq<u8>, x: int, y: int) -> int {
    match mode {
        Intra16x16Mode::Vertical => n[x] as int,
        Intra16x16Mode::Horizontal => n[16 + y] as int,
        Intra16x16Mode::Dc => (byte_sum(n, 0, 32) + 16) / 32,
        Intra16x16Mode::Plane => plane_sample(n, x, y),
    }
}

proof fn lemma_byte_sum_bound(s: Seq<u8>, lo: int, hi: int)
    requires
        lo <= hi,
    ensures
        0 <= byte_sum(s, lo, hi) <= 255 * (hi - lo),
    decreases hi - lo,
{
    if hi > lo {
        lemma_byte_sum_bound(s, lo, hi - 1);
    }
}

/// The plane gradient along the row or column at `base`.
fn plane_gradient_of(neighbors: &[u8], base: usize) -> (g: i32)
    requires
        neighbors@.len() >= 33,
        base == 0 || base == 16,
    ensures
        g == plane_gradient(neighbors@, base as int, 8),
        -16320 <= g <= 16320,
{
    let mut g: i32 = 0;
    let mut t: usize = 0;
    while t < 8
        invariant
            t <= 8,
            neighbors@.len() >= 33,
            base == 0 || base == 16,
            g == plane_gradient(neighbors@, base as int, t as int),
            -2040 * t <= g <= 2040 * t,
        decreases 8 - t,
    {
        let far: i32 = if t == 7 { neighbors[32] as i32 } else { neighbors[base + 6 - t] as i32 };
        let diff: i32 = neighbors[base + 8 + t] as i32 - far;
        let w: i32 = t as i32 + 1;
        assert(-2040 <= w * diff <= 2040) by (nonlinear_arith)
            requires -255 <= diff <= 255, 1 <= w <= 8;
        g = g + w * diff;
        t += 1;
    }
    g
}

/// Predict a 16x16 block from 33 neighbours (16 above, 16 to the left, then the
/// corner) into the first 256 bytes of `output`, in raster order. In plane mode the
/// gradient term that reaches past the first sample above or to the left takes the
/// corner sample. Fails, with `output` untouched, when fewer than 33 neighbours or
/// 256 output bytes are given.
pub fn predict_intra_16x16(mode: Intra16x16Mode, neighbors: &[u8], output: &mut [u8]) -> (r: Result<()>)
    ensures
        final(output)@.len() == old(output)@.len(),
        r.is_ok() <==> (neighbors@.len() >= 33 && old(output)@.len() >= 256),
        r matches Err(e) ==> e.is_invalid(),
        r.is_err() ==> final(output)@ == old(output)@,
        r.is_ok() ==> forall|y: int, x: int| 0 <= y < 16 && 0 <= x < 16 ==>
            final(output)@[y * 16 + x] as int == #[trigger] intra16x16_sample(mode, neighbors@, x, y),
        forall|t: int| 256 <= t < old(output)@.len() ==> #[trigger] final(output)@[t] == old(output)@[t],
{
    if neighbors.len() < 33 || output.len() < 256 {
        return Err(Error::invalid("intra_16x16", "Invalid buffer sizes"));
    }
    let ghost n = neighbors@;
    let ghost pre = output@;
    // Per-mode parameters: the DC value, and the plane parameters a, b, c.
    let mut dc: u8 = 0;
    let mut pa: i32 = 0;
    let mut pb: i32 = 0;
    let mut pc: i32 = 0;
    match mode {
        Intra16x16Mode::Dc => {
            let mut sum: u32 = 0;
            let mut t: usize = 0;
            while t < 32
                invariant
                    t <= 32,
                    n == neighbors@,
                    n.len() >= 33,
                    sum == byte_sum(n, 0, t as int),
                decreases 32 - t,
            {
                proof {
                    lemma_byte_sum_bound(n, 0, t as int);
                }
                sum = sum + neighbors[t] as u32;
                t += 1;
            }
            proof {
                lemma_byte_sum_bound(n, 0, 32);
            }
            dc = ((sum + 16) / 32) as u8;
        },
        Intra16x16Mode::Plane => {
            let h = plane_gradient_of(neighbors, 0);
            let v = plane_gradient_of(neighbors, 16);
            pa = 16 * (neighbors[15] as i32 + neighbors[31] as i32);
            proof {
                lemma2_to64();
            }
            pb = asr(5 * h + 32, 6);
            pc = asr(5 * v + 32, 6);
        },
        _ => {},
    }
    proof {
        lemma2_to64();
    }
    let mut y: usize = 0;
    while y < 16
        invariant
            y <= 16,
            n == neighbors@,
            n.len() >= 33,
            output@.len() == pre.len(),
            pre.len() >= 256,
            mode == Intra16x16Mode::Dc ==> dc == (byte_sum(n, 0, 32) + 16) / 32,
            mode == Intra16x16Mode::Plane ==> pa == 16 * (n[15] as int + n[31] as int)
                && pb == (5 * plane_gradient(n, 0, 8) + 32) / 64
                && pc == (5 * plane_gradient(n, 16, 8) + 32) / 64,
            -1276 <= pb <= 1276,
            -1276 <= pc <= 1276,
            0 <= pa <= 8160,
            forall|yy: int, xx: int| 0 <= yy < y && 0 <= xx < 16 ==>
                output@[yy * 16 + xx] as int == #[trigger] intra16x16_sample(mode, n, xx, yy),
            forall|t: int| 256 <= t < pre.len() ==> #[trigger] output@[t] == pre[t],
        decreases 16 - y,
    {
        let mut x: usize = 0;
        while x < 16
            invariant
                y < 16,
                x <= 16,
                n == neighbors@,
                n.len() >= 33,
                output@.len() == pre.len(),
                pre.len() >= 256,
                mode == Intra16x16Mode::Dc ==> dc == (byte_sum(n, 0, 32) + 16) / 32,
                mode == Intra16x16Mode::Plane ==> pa == 16 * (n[15] as int + n[31] as int)
                    && pb == (5 * plane_gradient(n, 0, 8) + 32) / 64
                    && pc == (5 * plane_gradient(n, 16, 8) + 32) / 64,
                -1276 <= pb <= 1276,
                -1276 <= pc <= 1276,
                0 <= pa <= 8160,
                forall|yy: int, xx: int| 0 <= yy < y && 0 <= xx < 16 ==>
                    output@[yy * 16 + xx] as int == #[trigger] intra16x16_sample(mode, n, xx, yy),
                forall|xx: int| 0 <= xx < x ==>
                    output@[y * 16 + xx] as int == #[trigger] intra16x16_sample(mode, n, xx, y as int),
                forall|t: int| 256 <= t < pre.len() ==> #[trigger] output@[t] == pre[t],
            decreases 16 - x,
        {
            proof {
                lemma2_to64();
            }
            let val: u8 = match mode {
                Intra16x16Mode::Vertical => neighbors[x],
                Intra16x16Mode::Horizontal => neighbors[16 + y],
                Intra16x16Mode::Dc => dc,
                Intra16x16Mode::Plane => {
                    let dx: i32 = x as i32 - 7;
                    let dy: i32 = y as i32 - 7;
                    assert(-1276 * 8 <= pb * dx <= 1276 * 8) by (nonlinear_arith)
                        requires -1276 <= pb <= 1276, -7 <= dx <= 8;
                    assert(-1276 * 8 <= pc * dy <= 1276 * 8) by (nonlinear_arith)
                        requires -1276 <= pc <= 1276, -7 <= dy <= 8;
                    clip_u8(asr(pa + pb * dx + pc * dy + 16, 5))
                },
            };
            output[y * 16 + x] = val;
            proof {
                assert forall|yy: int, xx: int| 0 <= yy < y && 0 <= xx < 16 implies
                    output@[yy * 16 + xx] as int == #[trigger] intra16x16_sample(mode, n, xx, yy) by {
                    assert(yy * 16 + xx < y * 16);
                }
            }
            x += 1;
        }
        y += 1;
    }
    Ok(())
}

/// Predict a block from the reference at `(block_x, block_y)` displaced by the
/// quarter-sample motion vector `(mv_x, mv_y)`. Fails when the displaced position
/// is negative; otherwise it is quarter-sample interpolation at that position.
pub fn predict_inter(ref_frame: &[u8], width: usize, height: usize, mv_x: i32, mv_y: i32,
    block_x: usize, block_y: usize, output: &mut [u8], block_width: usize, block_height: usize) -> (r: Result<()>)
    requires
        block_x * 4 + mv_x <= i32::MAX,
        block_y * 4 + mv_y <= i32::MAX,
        block_x * 4 <= i32::MAX,
        block_y * 4 <= i32::MAX,
        block_x * 4 + mv_x >= 0 && block_y * 4 + mv_y >= 0 ==> {
            let qx = (block_x * 4 + mv_x) as i32;
            let qy = (block_y * 4 + mv_y) as i32;
            &&& qpel_int(qx) + block_width <= usize::MAX
            &&& qpel_int(qy) + block_height <= usize::MAX
            &&& (qpel_int(qx) + block_width > width || qpel_int(qy) + block_height > height || (
                block_width * block_height <= old(output)@.len()
                && block_in_source(ref_frame@.len() as int, width as int, qpel_int(qx), qpel_int(qy),
                    block_width as int, block_height as int, (qx as int) % 4, (qy as int) % 4)))
        },
    ensures
        (block_x * 4 + mv_x < 0 || block_y * 4 + mv_y < 0) ==> r.is_err() && final(output)@ == old(output)@,
        block_x * 4 + mv_x >= 0 && block_y * 4 + mv_y >= 0 ==> {
            let qx = (block_x * 4 + mv_x) as i32;
            let qy = (block_y * 4 + mv_y) as i32;
            &&& (qpel_int(qx) + block_width > width || qpel_int(qy) + block_height > height) <==> r is Err
            &&& r matches Err(e) ==> e.is_invalid()
            &&& r is Err ==> final(output)@ == old(output)@
            &&& r is Ok ==> block_written(final(output)@, old(output)@, ref_frame@, width as int,
                qpel_int(qx), qpel_int(qy), (qx as int) % 4, (qy as int) % 4, block_width as int, block_height as int)
        },
{
    let ref_x: i32 = block_x as i32 * 4 + mv_x;
    let ref_y: i32 = block_y as i32 * 4 + mv_y;
    if ref_x < 0 || ref_y < 0 {
        return Err(Error::invalid("inter_pred", "Negative reference position"));
    }
    assert(ref_x == (block_x * 4 + mv_x) as i32 && ref_y == (block_y * 4 + mv_y) as i32);
    interpolate_luma_qpel(ref_frame, width, height, ref_x, ref_y, output, block_width, block_height)
}

/// Diagonal-down-right prediction runs along the down-right diagonal: the top row is
/// smoothed from the corner and the samples above (`(I + 2M + A + 2) >> 2`,
/// `(M + 2A + B + 2) >> 2`, `(A + 2B + C + 2) >> 2`), the left column from the corner and
/// the samples to the left (`(I + 2J + K + 2) >> 2`, `(J + 2K + L + 2) >> 2`,
/// `(K + 3L + 2) >> 2`), the corner sample is `(M + 2I + J + 2) >> 2`, and every sample
/// off the top row and left column repeats its upper-left neighbour.
pub proof fn lemma_intra4x4_diagonal_down_right(n: Seq<u8>)
    requires
        n.len() >= 13,
    ensures ({
        let p = intra4x4_prediction(Intra4x4Mode::DiagonalDownRight, n);
        let (m, a, b, c) = (n[0] as int, n[1] as int, n[2] as int, n[3] as int);
        let (i, j, k, l) = (n[5] as int, n[6] as int, n[7] as int, n[8] as int);
        &&& p.len() == 16
        &&& p[0] == (m + 2 * i + j + 2) / 4
        &&& p[1] == (i + 2 * m + a + 2) / 4
        &&& p[2] == (m + 2 * a + b + 2) / 4
        &&& p[3] == (a + 2 * b + c + 2) / 4
        &&& p[4] == (i + 2 * j + k + 2) / 4
        &&& p[8] == (j + 2 * k + l + 2) / 4
        &&& p[12] == (k + 3 * l + 2) / 4
        &&& forall|x: int, y: int| 1 <= x < 4 && 1 <= y < 4 ==>
            #[trigger] p[y * 4 + x] == p[(y - 1) * 4 + (x - 1)]
    }),
{
    let p = intra4x4_prediction(Intra4x4Mode::DiagonalDownRight, n);
    assert forall|x: int, y: int| 1 <= x < 4 && 1 <= y < 4 implies
        #[trigger] p[y * 4 + x] == p[(y - 1) * 4 + (x - 1)] by {
        assert(1 <= x < 4 && 1 <= y < 4);
        if y == 1 {
            if x == 1 {} else if x == 2 {} else {}
        } else if y == 2 {
            if x == 1 {} else if x == 2 {} else {}
        } else {
            if x == 1 {} else if x == 2 {} else {}
        }
    }
}

/// Vertical prediction copies each sample above down its column, horizontal
/// prediction copies each sample to the left along its row, and DC prediction fills
/// the block with the rounded mean `(A + B + C + D + I + J + K + L + 4) >> 3`.
pub proof fn lemma_intra4x4_vertical_horizontal_dc(n: Seq<u8>)
    requires
        n.len() >= 13,
    ensures
        forall|x: int, y: int| 0 <= x < 4 && 0 <= y < 4 ==> {
            &&& #[trigger] intra4x4_prediction(Intra4x4Mode::Vertical, n)[y * 4 + x] == n[1 + x] as int
            &&& intra4x4_prediction(Intra4x4Mode::Horizontal, n)[y * 4 + x] == n[5 + y] as int
            &&& intra4x4_prediction(Intra4x4Mode::Dc, n)[y * 4 + x] == (n[1] as int + n[2] as int
                + n[3] as int + n[4] as int + n[5] as int + n[6] as int + n[7] as int + n[8] as int + 4) / 8
        },
{
    assert forall|x: int, y: int| 0 <= x < 4 && 0 <= y < 4 implies {
        &&& #[trigger] intra4x4_prediction(Intra4x4Mode::Vertical, n)[y * 4 + x] == n[1 + x] as int
        &&& intra4x4_prediction(Intra4x4Mode::Horizontal, n)[y * 4 + x] == n[5 + y] as int
        &&& intra4x4_prediction(Intra4x4Mode::Dc, n)[y * 4 + x] == (n[1] as int + n[2] as int
            + n[3] as int + n[4] as int + n[5] as int + n[6] as int + n[7] as int + n[8] as int + 4) / 8
    } by {
        if y == 0 {
            if x == 0 {} else if x == 1 {} else if x == 2 {} else {}
        } else if y == 1 {
            if x == 0 {} else if x == 1 {} else if x == 2 {} else {}
        } else if y == 2 {
            if x == 0 {} else if x == 1 {} else if x == 2 {} else {}
        } else {
            if x == 0 {} else if x == 1 {} else if x == 2 {} else {}
        }
    }
}

/// Diagonal-down-left prediction runs along the down-left diagonal from the samples
/// above: the top row is `(A + 2B + C + 2) >> 2`, `(B + 2C + D + 2) >> 2`,
/// `(C + 3D + 2) >> 2`, `D`; the right column is `D` throughout, and every other
/// sample repeats its upper-right neighbour.
pub proof fn lemma_intra4x4_diagonal_down_left(n: Seq<u8>)
    requires
        n.len() >= 13,
    ensures ({
        let p = intra4x4_prediction(Intra4x4Mode::DiagonalDownLeft, n);
        let (a, b, c, d) = (n[1] as int, n[2] as int, n[3] as int, n[4] as int);
        &&& p.len() == 16
        &&& p[0] == (a + 2 * b + c + 2) / 4
        &&& p[1] == (b + 2 * c + d + 2) / 4
        &&& p[2] == (c + 3 * d + 2) / 4
        &&& forall|y: int| 0 <= y < 4 ==> #[trigger] p[y * 4 + 3] == d
        &&& forall|x: int, y: int| 0 <= x < 3 && 1 <= y < 4 ==>
            #[trigger] p[y * 4 + x] == p[(y - 1) * 4 + (x + 1)]
    }),
{
    let p = intra4x4_prediction(Intra4x4Mode::DiagonalDownLeft, n);
    assert forall|x: int, y: int| 0 <= x < 3 && 1 <= y < 4 implies
        #[trigger] p[y * 4 + x] == p[(y - 1) * 4 + (x + 1)] by {
        if y == 1 {
            if x == 0 {} else if x == 1 {} else {}
        } else if y == 2 {
            if x == 0 {} else if x == 1 {} else {}
        } else {
            if x == 0 {} else if x == 1 {} else {}
        }
    }
    assert forall|y: int| 0 <= y < 4 implies #[trigger] p[y * 4 + 3] == n[4] as int by {
        if y == 0 {} else if y == 1 {} else if y == 2 {} else {}
    }
}

/// Vertical-right prediction: the top row averages neighbouring samples above
/// (`(M + A + 1) >> 1`, `(A + B + 1) >> 1`, ...), the second row smooths them
/// (`(I + 2M + A + 2) >> 2`, `(M + 2A + B + 2) >> 2`, `(A + 2B + C + 2) >> 2`,
/// `(B + 2C + D + 2) >> 2`), the left column below it is `(M + 2I + J + 2) >> 2` and
/// `(I + 2J + K + 2) >> 2`, and the rest of the lower rows repeats the upper-left
/// neighbour.
pub proof fn lemma_intra4x4_vertical_right(n: Seq<u8>)
    requires
        n.len() >= 13,
    ensures ({
        let p = intra4x4_prediction(Intra4x4Mode::VerticalRight, n);
        let (m, i, j, k) = (n[0] as int, n[5] as int, n[6] as int, n[7] as int);
        &&& p.len() == 16
        &&& forall|x: int| 0 <= x < 4 ==> #[trigger] p[x] == (n[x] as int + n[x + 1] as int + 1) / 2
        &&& p[4] == (i + 2 * m + n[1] as int + 2) / 4
        &&& forall|x: int| 1 <= x < 4 ==> #[trigger] p[4 + x]
            == (n[x - 1] as int + 2 * n[x] as int + n[x + 1] as int + 2) / 4
        &&& p[8] == (m + 2 * i + j + 2) / 4
        &&& p[12] == (i + 2 * j + k + 2) / 4
        &&& forall|x: int, y: int| 1 <= x < 4 && 2 <= y < 4 ==>
            #[trigger] p[y * 4 + x] == p[(y - 1) * 4 + (x - 1)]
    }),
{
    let p = intra4x4_prediction(Intra4x4Mode::VerticalRight, n);
    assert forall|x: int, y: int| 1 <= x < 4 && 2 <= y < 4 implies
        #[trigger] p[y * 4 + x] == p[(y - 1) * 4 + (x - 1)] by {
        if y == 2 {
            if x == 1 {} else if x == 2 {} else {}
        } else {
            if x == 1 {} else if x == 2 {} else {}
        }
    }
    assert forall|x: int| 0 <= x < 4 implies #[trigger] p[x] == (n[x] as int + n[x + 1] as int + 1) / 2 by {
        if x == 0 {} else if x == 1 {} else if x == 2 {} else {}
    }
    assert forall|x: int| 1 <= x < 4 implies #[trigger] p[4 + x]
        == (n[x - 1] as int + 2 * n[x] as int + n[x + 1] as int + 2) / 4 by {
        if x == 1 {} else if x == 2 {} else {}
    }
}

/// Horizontal-down prediction: the left column averages neighbouring samples to the
/// left (`(M + I + 1) >> 1`, `(I + J + 1) >> 1`, `(J + K + 1) >> 1`,
/// `(K + L + 1) >> 1`), the second column smooths them (`(I + 2M + A + 2) >> 2`,
/// `(M + 2I + J + 2) >> 2`, `(I + 2J + K + 2) >> 2`, `(J + 2K + L + 2) >> 2`), the top
/// row ends in `(M + 2A + B + 2) >> 2` and `(A + 2B + C + 2) >> 2`, and the rest of
/// the lower rows repeats the upper-left neighbour.
pub proof fn lemma_intra4x4_horizontal_down(n: Seq<u8>)
    requires
        n.len() >= 13,
    ensures ({
        let p = intra4x4_prediction(Intra4x4Mode::HorizontalDown, n);
        let (m, a, b, c) = (n[0] as int, n[1] as int, n[2] as int, n[3] as int);
        let (i, j, k, l) = (n[5] as int, n[6] as int, n[7] as int, n[8] as int);
        &&& p.len() == 16
        &&& p[0] == (m + i + 1) / 2 && p[4] == (i + j + 1) / 2
        &&& p[8] == (j + k + 1) / 2 && p[12] == (k + l + 1) / 2
        &&& p[1] == (i + 2 * m + a + 2) / 4 && p[5] == (m + 2 * i + j + 2) / 4
        &&& p[9] == (i + 2 * j + k + 2) / 4 && p[13] == (j + 2 * k + l + 2) / 4
        &&& p[2] == (m + 2 * a + b + 2) / 4
        &&& p[3] == (a + 2 * b + c + 2) / 4
        &&& forall|x: int, y: int| 2 <= x < 4 && 1 <= y < 4 ==>
            #[trigger] p[y * 4 + x] == p[(y - 1) * 4 + (x - 1)]
    }),
{
    let p = intra4x4_prediction(Intra4x4Mode::HorizontalDown, n);
    assert forall|x: int, y: int| 2 <= x < 4 && 1 <= y < 4 implies
        #[trigger] p[y * 4 + x] == p[(y - 1) * 4 + (x - 1)] by {
        if y == 1 {
            if x == 2 {} else {}
        } else if y == 2 {
            if x == 2 {} else {}
        } else {
            if x == 2 {} else {}
        }
    }
}

/// Vertical-left prediction: the top row averages neighbouring samples above
/// (`(A + B + 1) >> 1`, `(B + C + 1) >> 1`, `(C + D + 1) >> 1`, `D`), the second row
/// smooths them (`(A + 2B + C + 2) >> 2`, `(B + 2C + D + 2) >> 2`, `(C + 3D + 2) >> 2`,
/// `D`), the right column is `D` throughout, and every other sample of the lower two
/// rows repeats the sample two rows up and one to the right.
pub proof fn lemma_intra4x4_vertical_left(n: Seq<u8>)
    requires
        n.len() >= 13,
    ensures ({
        let p = intra4x4_prediction(Intra4x4Mode::VerticalLeft, n);
        let (a, b, c, d) = (n[1] as int, n[2] as int, n[3] as int, n[4] as int);
        &&& p.len() == 16
        &&& p[0] == (a + b + 1) / 2 && p[1] == (b + c + 1) / 2 && p[2] == (c + d + 1) / 2
        &&& p[4] == (a + 2 * b + c + 2) / 4 && p[5] == (b + 2 * c + d + 2) / 4
        &&& p[6] == (c + 3 * d + 2) / 4
        &&& forall|y: int| 0 <= y < 4 ==> #[trigger] p[y * 4 + 3] == d
        &&& forall|x: int, y: int| 0 <= x < 3 && 2 <= y < 4 ==>
            #[trigger] p[y * 4 + x] == p[(y - 2) * 4 + (x + 1)]
    }),
{
    let p = intra4x4_prediction(Intra4x4Mode::VerticalLeft, n);
    assert forall|x: int, y: int| 0 <= x < 3 && 2 <= y < 4 implies
        #[trigger] p[y * 4 + x] == p[(y - 2) * 4 + (x + 1)] by {
        if y == 2 {
            if x == 0 {} else if x == 1 {} else {}
        } else {
            if x == 0 {} else if x == 1 {} else {}
        }
    }
    assert forall|y: int| 0 <= y < 4 implies #[trigger] p[y * 4 + 3] == n[4] as int by {
        if y == 0 {} else if y == 1 {} else if y == 2 {} else {}
    }
}

/// Horizontal-up prediction: the top row is `(I + J + 1) >> 1`,
/// `(I + 2J + K + 2) >> 2`, `(J + K + 1) >> 1`, `(J + 2K + L + 2) >> 2`; the right half
/// of the second row is `(K + L + 1) >> 1`, `(K + 3L + 2) >> 2`; the right half of the
/// lower two rows is `L`, and the left half of each lower row repeats the right half
/// of the row above.
pub proof fn lemma_intra4x4_horizontal_up(n: Seq<u8>)
    requires
        n.len() >= 13,
    ensures ({
        let p = intra4x4_prediction(Intra4x4Mode::HorizontalUp, n);
        let (i, j, k, l) = (n[5] as int, n[6] as int, n[7] as int, n[8] as int);
        &&& p.len() == 16
        &&& p[0] == (i + j + 1) / 2 && p[1] == (i + 2 * j + k + 2) / 4
        &&& p[2] == (j + k + 1) / 2 && p[3] == (j + 2 * k + l + 2) / 4
        &&& p[6] == (k + l + 1) / 2 && p[7] == (k + 3 * l + 2) / 4
        &&& p[10] == l && p[11] == l && p[14] == l && p[15] == l
        &&& forall|x: int, y: int| 0 <= x < 2 && 1 <= y < 4 ==>
            #[trigger] p[y * 4 + x] == p[(y - 1) * 4 + (x + 2)]
    }),
{
    let p = intra4x4_prediction(Intra4x4Mode::HorizontalUp, n);
    assert forall|x: int, y: int| 0 <= x < 2 && 1 <= y < 4 implies
        #[trigger] p[y * 4 + x] == p[(y - 1) * 4 + (x + 2)] by {
        if y == 1 {
            if x == 0 {} else {}
        } else if y == 2 {
            if x == 0 {} else {}
        } else {
            if x == 0 {} else {}
        }
    }
}

/// 16x16 prediction from the neighbours `n` (16 above, 16 to the left, the corner):
/// vertical prediction copies the sample above each column, horizontal the sample to
/// the left of each row, DC fills the block with one value, and the plane at its
/// centre sample `(7, 7)` is the mean `(16 * (above[15] + left[15]) + 16) >> 5` of
/// the last samples above and to the left, clipped, whatever the gradients.
pub proof fn lemma_intra16x16_modes(n: Seq<u8>, x: int, y: int)
    requires
        n.len() >= 33,
        0 <= x < 16,
        0 <= y < 16,
    ensures
        intra16x16_sample(Intra16x16Mode::Vertical, n, x, y) == n[x] as int,
        intra16x16_sample(Intra16x16Mode::Horizontal, n, x, y) == n[16 + y] as int,
        intra16x16_sample(Intra16x16Mode::Dc, n, x, y) == intra16x16_sample(Intra16x16Mode::Dc, n, 0, 0),
        intra16x16_sample(Intra16x16Mode::Plane, n, 7, 7) == clip_pixel((16 * (n[15] as int + n[31] as int) + 16) / 32),
{
}

} // verus!
