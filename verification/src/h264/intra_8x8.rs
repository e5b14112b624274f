//! Intra 8x8 prediction of the High profile: the nine directional modes of 4x4
//! prediction, on 8x8 blocks.
use vstd::prelude::*;
use crate::error::Result;
use super::arith::{avg2, avg3, mean2, mean3};
use super::predict::byte_sum;

verus! {

/// Intra 8x8 prediction modes.
#[derive(Debug, Clone, Copy, PartialEq, Eq, Structural)]
pub enum Intra8x8Mode {
    Vertical,
    Horizontal,
    Dc,
    DiagonalDownLeft,
    DiagonalDownRight,
    VerticalRight,
    HorizontalDown,
    VerticalLeft,
    HorizontalUp,
}

/// The smaller of `v` and 15.
pub open spec fn cap15(v: int) -> int {
    if v < 15 { v } else { 15 }
}

/// The predicted sample at column `x`, row `y` of an 8x8 block from the 16 samples
/// above (`t`), the 8 to the left (`l`) and the corner `m`.
pub open spec fn intra8x8_sample(mode: Intra8x8Mode, t: Seq<u8>, l: Seq<u8>, m: int, x: int, y: int) -> int {
    match mode {
        Intra8x8Mode::Vertical => t[x] as int,
        Intra8x8Mode::Horizontal => l[y] as int,
        Intra8x8Mode::Dc => (byte_sum(t, 0, 8) + byte_sum(l, 0, 8) + 8) / 16,
        Intra8x8Mode::DiagonalDownLeft => {
            let i = x + y;
            mean3(t[i] as int, t[cap15(i + 1)] as int, t[cap15(i + 2)] as int)
        },
        Intra8x8Mode::DiagonalDownRight => {
            if x > y {
                let i = x - y - 1;
                mean3(if i == 0 { m } else { t[i - 1] as int }, t[i] as int, t[i + 1] as int)
            } else if x < y {
                let i = y - x - 1;
                mean3(if i == 0 { m } else { l[i - 1] as int }, l[i] as int, l[i + 1] as int)
            } else {
                mean3(t[0] as int, m, l[0] as int)
            }
        },
        Intra8x8Mode::VerticalRight => {
            let z = 2 * x - y;
            if z >= 0 && z % 2 == 0 {
                t[z / 2] as int
            } else if z >= 1 {
                mean2(t[(z - 1) / 2] as int, t[(z - 1) / 2 + 1] as int)
            } else {
                l[-z - 1] as int
            }
        },
        Intra8x8Mode::HorizontalDown => {
            let z = 2 * y - x;
            if z >= 0 && z % 2 == 0 {
                l[z / 2] as int
            } else if z >= 1 {
                mean2(l[(z - 1) / 2] as int, l[(z - 1) / 2 + 1] as int)
            } else {
                t[-z - 1] as int
            }
        },
        Intra8x8Mode::VerticalLeft => {
            let i = x + y / 2;
            if y % 2 == 0 {
                mean2(t[i] as int, t[i + 1] as int)
            } else {
                mean3(t[i] as int, t[i + 1] as int, t[i + 2] as int)
            }
        },
        Intra8x8Mode::HorizontalUp => {
            let z = x + 2 * y;
            if z < 13 {
                let i = z / 2;
                if z % 2 == 0 {
                    mean2(l[i] as int, l[i + 1] as int)
                } else {
                    mean3(l[i] as int, l[i + 1] as int, l[i + 2] as int)
                }
            } else {
                l[7] as int
            }
        },
    }
}

/// The sum of the first eight samples of a neighbour array.
fn sum8(s: &[u8]) -> (r: u32)
    requires
        s@.len() >= 8,
    ensures
        r == byte_sum(s@, 0, 8),
        r <= 2040,
{
    let mut sum: u32 = 0;
    let mut i: usize = 0;
    while i < 8
        invariant
            i <= 8,
            s@.len() >= 8,
            sum == byte_sum(s@, 0, i as int),
            sum <= 255 * i,
        decreases 8 - i,
    {
        sum = sum + s[i] as u32;
        i += 1;
    }
    sum
}

/// One predicted sample; `dc` is the DC value, used in DC mode.
fn intra8x8_pixel(mode: Intra8x8Mode, top: &[u8; 16], left: &[u8; 8], m: u8, dc: u8, x: usize, y: usize) -> (r: u8)
    requires
        x < 8,
        y < 8,
        mode == Intra8x8Mode::Dc ==> dc == (byte_sum(top@, 0, 8) + byte_sum(left@, 0, 8) + 8) / 16,
    ensures
        r as int == intra8x8_sample(mode, top@, left@, m as int, x as int, y as int),
{
    match mode {
        Intra8x8Mode::Vertical => top[x],
        Intra8x8Mode::Horizontal => left[y],
        Intra8x8Mode::Dc => dc,
        Intra8x8Mode::DiagonalDownLeft => {
            let i = x + y;
            let i1 = if i + 1 < 15 { i + 1 } else { 15 };
            let i2 = if i + 2 < 15 { i + 2 } else { 15 };
            avg3(top[i], top[i1], top[i2])
        },
        Intra8x8Mode::DiagonalDownRight => {
            if x > y {
                let i = x - y - 1;
                let a = if i == 0 { m } else { top[i - 1] };
                avg3(a, top[i], top[i + 1])
            } else if x < y {
                let i = y - x - 1;
                let a = if i == 0 { m } else { left[i - 1] };
                avg3(a, left[i], left[i + 1])
            } else {
                avg3(top[0], m, left[0])
            }
        },
        Intra8x8Mode::VerticalRight => {
            let z: i32 = 2 * x as i32 - y as i32;
            assert((z & 1) == z % 2) by (bit_vector);
            if z >= 0 && (z & 1) == 0 {
                top[(z / 2) as usize]
            } else if z >= 1 {
                let i = ((z - 1) / 2) as usize;
                avg2(top[i], top[i + 1])
            } else {
                left[(-z - 1) as usize]
            }
        },
        Intra8x8Mode::HorizontalDown => {
            let z: i32 = 2 * y as i32 - x as i32;
            assert((z & 1) == z % 2) by (bit_vector);
            if z >= 0 && (z & 1) == 0 {
                left[(z / 2) as usize]
            } else if z >= 1 {
                let i = ((z - 1) / 2) as usize;
                avg2(left[i], left[i + 1])
            } else {
                top[(-z - 1) as usize]
            }
        },
        Intra8x8Mode::VerticalLeft => {
            let i = x + y / 2;
            if y % 2 == 0 {
                avg2(top[i], top[i + 1])
            } else {
                avg3(top[i], top[i + 1], top[i + 2])
            }
        },
        Intra8x8Mode::HorizontalUp => {
            let z = x + 2 * y;
            if z < 13 {
                let i = z / 2;
                if z % 2 == 0 {
                    avg2(left[i], left[i + 1])
                } else {
                    avg3(left[i], left[i + 1], left[i + 2])
                }
            } else {
                left[7]
            }
        },
    }
}

/// Predict an 8x8 block from the 16 samples above, the 8 to the left and the corner,
/// in raster order; every mode succeeds.
pub fn predict_intra_8x8(mode: Intra8x8Mode, neighbors_top: &[u8; 16], neighbors_left: &[u8; 8], top_left: u8,
    output: &mut [u8; 64]) -> (r: Result<()>)
    ensures
        r.is_ok(),
        forall|y: int, x: int| 0 <= y < 8 && 0 <= x < 8 ==> final(output)@[y * 8 + x] as int
            == #[trigger] intra8x8_sample(mode, neighbors_top@, neighbors_left@, top_left as int, x, y),
{
    let mut dc: u8 = 0;
    if mode == Intra8x8Mode::Dc {
        let st = sum8(neighbors_top);
        let sl = sum8(neighbors_left);
        dc = ((st + sl + 8) / 16) as u8;
    }
    let mut y: usize = 0;
    while y < 8
        invariant
            y <= 8,
            output@.len() == 64,
            mode == Intra8x8Mode::Dc ==> dc == (byte_sum(neighbors_top@, 0, 8) + byte_sum(neighbors_left@, 0, 8) + 8) / 16,
            forall|yy: int, xx: int| 0 <= yy < y && 0 <= xx < 8 ==> output@[yy * 8 + xx] as int
                == #[trigger] intra8x8_sample(mode, neighbors_top@, neighbors_left@, top_left as int, xx, yy),
        decreases 8 - y,
    {
        let mut x: usize = 0;
        while x < 8
            invariant
                y < 8,
                x <= 8,
                output@.len() == 64,
                mode == Intra8x8Mode::Dc ==> dc == (byte_sum(neighbors_top@, 0, 8) + byte_sum(neighbors_left@, 0, 8) + 8) / 16,
                forall|yy: int, xx: int| 0 <= yy < y && 0 <= xx < 8 ==> output@[yy * 8 + xx] as int
                    == #[trigger] intra8x8_sample(mode, neighbors_top@, neighbors_left@, top_left as int, xx, yy),
                forall|xx: int| 0 <= xx < x ==> output@[y * 8 + xx] as int
                    == #[trigger] intra8x8_sample(mode, neighbors_top@, neighbors_left@, top_left as int, xx, y as int),
            decreases 8 - x,
        {
            let v = intra8x8_pixel(mode, neighbors_top, neighbors_left, top_left, dc, x, y);
            output[y * 8 + x] = v;
            proof {
                assert forall|yy: int, xx: int| 0 <= yy < y && 0 <= xx < 8 implies output@[yy * 8 + xx] as int
                    == #[trigger] intra8x8_sample(mode, neighbors_top@, neighbors_left@, top_left as int, xx, yy) by {
                    assert(yy * 8 + xx < y * 8);
                }
            }
            x += 1;
        }
        y += 1;
    }
    Ok(())
}

/// The 8x8 directional modes, at any sample `(x, y)`, from the samples above `t`,
/// to the left `l` and the corner `m`: vertical copies `t[x]`, horizontal `l[y]`, DC
/// is one value for the whole block. Each diagonal mode is constant along its
/// direction: down-left along the anti-diagonal, down-right along the diagonal
/// (with its top row smoothed from the corner and the samples above, its left column
/// from the corner and the samples to the left), vertical-right two rows down and one
/// right, horizontal-down one row down and two right, vertical-left two rows down and
/// one left, horizontal-up one row down and two left; the rows or columns these
/// steps start from are given by the samples above or to the left.
pub proof fn lemma_intra8x8_directions(t: Seq<u8>, l: Seq<u8>, m: int, x: int, y: int)
    requires
        t.len() >= 16,
        l.len() >= 8,
        0 <= x < 8,
        0 <= y < 8,
    ensures ({
        let s = |mode: Intra8x8Mode, xx: int, yy: int| intra8x8_sample(mode, t, l, m, xx, yy);
        let tt = |i: int| t[i] as int;
        let ll = |i: int| l[i] as int;
        &&& s(Intra8x8Mode::Vertical, x, y) == tt(x)
        &&& s(Intra8x8Mode::Horizontal, x, y) == ll(y)
        &&& s(Intra8x8Mode::Dc, x, y) == s(Intra8x8Mode::Dc, 0, 0)
        &&& y == 0 ==> s(Intra8x8Mode::DiagonalDownLeft, x, 0)
            == (tt(x) + 2 * tt(x + 1) + tt(if x + 2 < 15 { x + 2 } else { 15 }) + 2) / 4
        &&& y >= 1 && x < 7 ==> s(Intra8x8Mode::DiagonalDownLeft, x, y) == s(Intra8x8Mode::DiagonalDownLeft, x + 1, y - 1)
        &&& s(Intra8x8Mode::DiagonalDownRight, 0, 0) == (tt(0) + 2 * m + ll(0) + 2) / 4
        &&& x >= 1 ==> s(Intra8x8Mode::DiagonalDownRight, x, 0)
            == ((if x == 1 { m } else { tt(x - 2) }) + 2 * tt(x - 1) + tt(x) + 2) / 4
        &&& y >= 1 ==> s(Intra8x8Mode::DiagonalDownRight, 0, y)
            == ((if y == 1 { m } else { ll(y - 2) }) + 2 * ll(y - 1) + ll(y) + 2) / 4
        &&& x >= 1 && y >= 1 ==> s(Intra8x8Mode::DiagonalDownRight, x, y) == s(Intra8x8Mode::DiagonalDownRight, x - 1, y - 1)
        &&& s(Intra8x8Mode::VerticalRight, x, 0) == tt(x)
        &&& s(Intra8x8Mode::VerticalRight, x, 1) == (if x == 0 { ll(0) } else { (tt(x - 1) + tt(x) + 1) / 2 })
        &&& x >= 1 && y >= 2 ==> s(Intra8x8Mode::VerticalRight, x, y) == s(Intra8x8Mode::VerticalRight, x - 1, y - 2)
        &&& s(Intra8x8Mode::HorizontalDown, 0, y) == ll(y)
        &&& s(Intra8x8Mode::HorizontalDown, 1, y) == (if y == 0 { tt(0) } else { (ll(y - 1) + ll(y) + 1) / 2 })
        &&& x >= 2 && y >= 1 ==> s(Intra8x8Mode::HorizontalDown, x, y) == s(Intra8x8Mode::HorizontalDown, x - 2, y - 1)
        &&& s(Intra8x8Mode::VerticalLeft, x, 0) == (tt(x) + tt(x + 1) + 1) / 2
        &&& s(Intra8x8Mode::VerticalLeft, x, 1) == (tt(x) + 2 * tt(x + 1) + tt(x + 2) + 2) / 4
        &&& x < 7 && y >= 2 ==> s(Intra8x8Mode::VerticalLeft, x, y) == s(Intra8x8Mode::VerticalLeft, x + 1, y - 2)
        &&& y < 7 ==> s(Intra8x8Mode::HorizontalUp, 0, y) == (ll(y) + ll(y + 1) + 1) / 2
        &&& y < 6 ==> s(Intra8x8Mode::HorizontalUp, 1, y) == (ll(y) + 2 * ll(y + 1) + ll(y + 2) + 2) / 4
        &&& s(Intra8x8Mode::HorizontalUp, 0, 7) == ll(7)
        &&& x < 6 && y >= 1 ==> s(Intra8x8Mode::HorizontalUp, x, y) == s(Intra8x8Mode::HorizontalUp, x + 2, y - 1)
    }),
{
}

} // verus!
