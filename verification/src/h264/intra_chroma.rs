//! Intra prediction of an 8x8 chroma block (4:2:0): DC per quadrant, horizontal,
//! vertical and plane.
use vstd::prelude::*;
use crate::error::Result;
use super::arith::{asr, clip_pixel, clip_u8};
use super::predict::byte_sum;
use vstd::arithmetic::power2::lemma2_to64;

verus! {

/// Chroma intra prediction modes.
#[derive(Debug, Clone, Copy, PartialEq, Eq, Structural)]
pub enum IntraChromaMode {
    Dc,
    Horizontal,
    Vertical,
    Plane,
}

/// The index of the sample that a plane gradient term at offset `i` subtracts.
pub open spec fn chroma_plane_back(i: int) -> int {
    if i >= 2 { 0 } else { 2 - i }
}

/// The chroma plane gradient over the first `count` terms along `s`.
pub open spec fn chroma_gradient(s: Seq<u8>, count: int) -> int
    decreases count,
{
    if count <= 0 {
        0
    } else {
        chroma_gradient(s, count - 1)
            + count * (s[4 + count - 1] as int - s[chroma_plane_back(count - 1)] as int)
    }
}

/// The predicted chroma sample at column `x`, row `y` from the 8 samples above
/// (`t`) and the 8 to the left (`l`). The bottom-right DC quadrant is 128.
pub open spec fn chroma_sample(mode: IntraChromaMode, t: Seq<u8>, l: Seq<u8>, x: int, y: int) -> int {
    match mode {
        IntraChromaMode::Dc => {
            if x < 4 && y < 4 {
                (byte_sum(t, 0, 4) + byte_sum(l, 0, 4) + 4) / 8
            } else if y < 4 {
                (byte_sum(t, 4, 8) + 2) / 4
            } else if x < 4 {
                (byte_sum(l, 4, 8) + 2) / 4
            } else {
                128
            }
        },
        IntraChromaMode::Horizontal => l[y] as int,
        IntraChromaMode::Vertical => t[x] as int,
        IntraChromaMode::Plane => {
            let a = 16 * (t[7] as int + l[7] as int);
            let b = (17 * chroma_gradient(t, 4) + 16) / 32;
            let c = (17 * chroma_gradient(l, 4) + 16) / 32;
            clip_pixel((a + b * (x - 3) + c * (y - 3) + 16) / 32)
        },
    }
}

/// The sum of `s[lo..hi]`.
fn sum_range(s: &[u8; 8], lo: usize, hi: usize) -> (r: u32)
    requires
        lo <= hi <= 8,
    ensures
        r == byte_sum(s@, lo as int, hi as int),
        r <= 255 * (hi - lo),
{
    let mut sum: u32 = 0;
    let mut i: usize = lo;
    while i < hi
        invariant
            lo <= i <= hi <= 8,
            sum == byte_sum(s@, lo as int, i as int),
            sum <= 255 * (i - lo),
        decreases hi - i,
    {
        sum = sum + s[i] as u32;
        i += 1;
    }
    sum
}

/// The plane gradient along `s`.
fn chroma_gradient_of(s: &[u8; 8]) -> (g: i32)
    ensures
        g == chroma_gradient(s@, 4),
        -2550 <= g <= 2550,
{
    let mut g: i32 = 0;
    let mut i: usize = 0;
    while i < 4
        invariant
            i <= 4,
            g == chroma_gradient(s@, i as int),
            -1020 * i <= g <= 1020 * i,
        decreases 4 - i,
    {
        let back = if i >= 2 { 0 } else { 2 - i };
        let diff: i32 = s[4 + i] as i32 - s[back] as i32;
        let w: i32 = i as i32 + 1;
        assert(-1020 <= w * diff <= 1020) by (nonlinear_arith)
            requires -255 <= diff <= 255, 1 <= w <= 4;
        g = g + w * diff;
        i += 1;
    }
    assert(-2550 <= g <= 2550) by {
        reveal_with_fuel(chroma_gradient, 5);
    }
    g
}

/// Predict an 8x8 chroma block from the 8 samples above and the 8 to the left, in
/// raster order; every mode succeeds.
pub fn predict_intra_chroma(mode: IntraChromaMode, neighbors_top: &[u8; 8], neighbors_left: &[u8; 8], top_left: u8,
    output: &mut [u8; 64]) -> (r: Result<()>)
    ensures
        r.is_ok(),
        forall|y: int, x: int| 0 <= y < 8 && 0 <= x < 8 ==> final(output)@[y * 8 + x] as int
            == #[trigger] chroma_sample(mode, neighbors_top@, neighbors_left@, x, y),
{
    let ghost t = neighbors_top@;
    let ghost l = neighbors_left@;
    let mut dc_tl: u8 = 0;
    let mut dc_tr: u8 = 0;
    let mut dc_bl: u8 = 0;
    let mut pa: i32 = 0;
    let mut pb: i32 = 0;
    let mut pc: i32 = 0;
    proof {
        lemma2_to64();
    }
    match mode {
        IntraChromaMode::Dc => {
            let s_tl = sum_range(neighbors_top, 0, 4) + sum_range(neighbors_left, 0, 4);
            dc_tl = ((s_tl + 4) / 8) as u8;
            dc_tr = ((sum_range(neighbors_top, 4, 8) + 2) / 4) as u8;
            dc_bl = ((sum_range(neighbors_left, 4, 8) + 2) / 4) as u8;
        },
        IntraChromaMode::Plane => {
            let h = chroma_gradient_of(neighbors_top);
            let v = chroma_gradient_of(neighbors_left);
            pa = 16 * (neighbors_top[7] as i32 + neighbors_left[7] as i32);
            pb = asr(17 * h + 16, 5);
            pc = asr(17 * v + 16, 5);
        },
        _ => {},
    }
    let mut y: usize = 0;
    while y < 8
        invariant
            y <= 8,
            output@.len() == 64,
            t == neighbors_top@,
            l == neighbors_left@,
            mode == IntraChromaMode::Dc ==> dc_tl == (byte_sum(t, 0, 4) + byte_sum(l, 0, 4) + 4) / 8
                && dc_tr == (byte_sum(t, 4, 8) + 2) / 4 && dc_bl == (byte_sum(l, 4, 8) + 2) / 4,
            mode == IntraChromaMode::Plane ==> pa == 16 * (t[7] as int + l[7] as int)
                && pb == (17 * chroma_gradient(t, 4) + 16) / 32
                && pc == (17 * chroma_gradient(l, 4) + 16) / 32,
            -1400 <= pb <= 1400,
            -1400 <= pc <= 1400,
            0 <= pa <= 8160,
            forall|yy: int, xx: int| 0 <= yy < y && 0 <= xx < 8 ==> output@[yy * 8 + xx] as int
                == #[trigger] chroma_sample(mode, t, l, xx, yy),
        decreases 8 - y,
    {
        let mut x: usize = 0;
        while x < 8
            invariant
                y < 8,
                x <= 8,
                output@.len() == 64,
                t == neighbors_top@,
                l == neighbors_left@,
                mode == IntraChromaMode::Dc ==> dc_tl == (byte_sum(t, 0, 4) + byte_sum(l, 0, 4) + 4) / 8
                    && dc_tr == (byte_sum(t, 4, 8) + 2) / 4 && dc_bl == (byte_sum(l, 4, 8) + 2) / 4,
                mode == IntraChromaMode::Plane ==> pa == 16 * (t[7] as int + l[7] as int)
                    && pb == (17 * chroma_gradient(t, 4) + 16) / 32
                    && pc == (17 * chroma_gradient(l, 4) + 16) / 32,
                -1400 <= pb <= 1400,
                -1400 <= pc <= 1400,
                0 <= pa <= 8160,
                forall|yy: int, xx: int| 0 <= yy < y && 0 <= xx < 8 ==> output@[yy * 8 + xx] as int
                    == #[trigger] chroma_sample(mode, t, l, xx, yy),
                forall|xx: int| 0 <= xx < x ==> output@[y * 8 + xx] as int
                    == #[trigger] chroma_sample(mode, t, l, xx, y as int),
            decreases 8 - x,
        {
            proof {
                lemma2_to64();
            }
            let v: u8 = match mode {
                IntraChromaMode::Dc => {
                    if x < 4 && y < 4 {
                        dc_tl
                    } else if y < 4 {
                        dc_tr
                    } else if x < 4 {
                        dc_bl
                    } else {
                        128
                    }
                },
                IntraChromaMode::Horizontal => neighbors_left[y],
                IntraChromaMode::Vertical => neighbors_top[x],
                IntraChromaMode::Plane => {
                    let dx: i32 = x as i32 - 3;
                    let dy: i32 = y as i32 - 3;
                    assert(-1400 * 4 <= pb * dx <= 1400 * 4) by (nonlinear_arith)
                        requires -1400 <= pb <= 1400, -3 <= dx <= 4;
                    assert(-1400 * 4 <= pc * dy <= 1400 * 4) by (nonlinear_arith)
                        requires -1400 <= pc <= 1400, -3 <= dy <= 4;
                    clip_u8(asr(pa + pb * dx + pc * dy + 16, 5))
                },
            };
            output[y * 8 + x] = v;
            proof {
                assert forall|yy: int, xx: int| 0 <= yy < y && 0 <= xx < 8 implies output@[yy * 8 + xx] as int
                    == #[trigger] chroma_sample(mode, t, l, xx, yy) by {
                    assert(yy * 8 + xx < y * 8);
                }
            }
            x += 1;
        }
        y += 1;
    }
    Ok(())
}

/// Chroma prediction at any sample `(x, y)` from the samples above `t` and to the
/// left `l`: vertical copies `t[x]`, horizontal `l[y]`; DC is one value per 4x4
/// quadrant, the top-left quadrant the rounded mean of the first four samples above
/// and to the left, the top-right that of the last four above, the bottom-left that
/// of the last four to the left, and the bottom-right 128; the plane at `(3, 3)` is
/// `(16 * (t[7] + l[7]) + 16) >> 5`, clipped, whatever the gradients.
pub proof fn lemma_chroma_modes(t: Seq<u8>, l: Seq<u8>, x: int, y: int)
    requires
        t.len() >= 8,
        l.len() >= 8,
        0 <= x < 8,
        0 <= y < 8,
    ensures ({
        let dc = chroma_sample(IntraChromaMode::Dc, t, l, x, y);
        &&& chroma_sample(IntraChromaMode::Vertical, t, l, x, y) == t[x] as int
        &&& chroma_sample(IntraChromaMode::Horizontal, t, l, x, y) == l[y] as int
        &&& x < 4 && y < 4 ==> dc == (t[0] as int + t[1] as int + t[2] as int + t[3] as int
            + l[0] as int + l[1] as int + l[2] as int + l[3] as int + 4) / 8
        &&& x >= 4 && y < 4 ==> dc == (t[4] as int + t[5] as int + t[6] as int + t[7] as int + 2) / 4
        &&& x < 4 && y >= 4 ==> dc == (l[4] as int + l[5] as int + l[6] as int + l[7] as int + 2) / 4
        &&& x >= 4 && y >= 4 ==> dc == 128
        &&& chroma_sample(IntraChromaMode::Plane, t, l, 3, 3) == clip_pixel((16 * (t[7] as int + l[7] as int) + 16) / 32)
    }),
{
    reveal_with_fuel(byte_sum, 5);
    assert(byte_sum(t, 4, 8) == t[4] as int + t[5] as int + t[6] as int + t[7] as int);
    assert(byte_sum(l, 4, 8) == l[4] as int + l[5] as int + l[6] as int + l[7] as int);
}

} // verus!
