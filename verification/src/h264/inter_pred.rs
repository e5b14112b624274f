//! Motion-compensated prediction: luma blocks with the six-tap filter, chroma
//! blocks with bilinear weights, and the average of two predictions.
use vstd::prelude::*;
use crate::error::Result;
use super::arith::{asr, clip3, clip_pixel, clip_u8};

verus! {

/// Partition sizes of inter prediction.
#[derive(Debug, Clone, Copy, PartialEq, Eq, Structural)]
pub enum PartitionSize {
    Size16x16,
    Size16x8,
    Size8x16,
    Size8x8,
    Size8x4,
    Size4x8,
    Size4x4,
}

impl PartitionSize {
    /// (width, height) in samples.
    pub fn dimensions(&self) -> (r: (usize, usize))
        ensures
            r == (match *self {
                PartitionSize::Size16x16 => (16usize, 16usize),
                PartitionSize::Size16x8 => (16usize, 8usize),
                PartitionSize::Size8x16 => (8usize, 16usize),
                PartitionSize::Size8x8 => (8usize, 8usize),
                PartitionSize::Size8x4 => (8usize, 4usize),
                PartitionSize::Size4x8 => (4usize, 8usize),
                PartitionSize::Size4x4 => (4usize, 4usize),
            }),
    {
        match self {
            PartitionSize::Size16x16 => (16, 16),
            PartitionSize::Size16x8 => (16, 8),
            PartitionSize::Size8x16 => (8, 16),
            PartitionSize::Size8x8 => (8, 8),
            PartitionSize::Size8x4 => (8, 4),
            PartitionSize::Size4x8 => (4, 8),
            PartitionSize::Size4x4 => (4, 4),
        }
    }
}

/// `max(v, 0)`.
pub open spec fn nonneg(v: int) -> int {
    if v < 0 { 0 } else { v }
}

/// The six-tap filter `[1, -5, 20, 20, -5, 1]` over the samples `src[base + p]` for
/// `p` from `xc - 2` to `xc + 3`, positions left of 0 taken as 0.
pub open spec fn hsum6(src: Seq<u8>, base: int, xc: int) -> int {
    src[base + nonneg(xc - 2)] as int - 5 * src[base + nonneg(xc - 1)] + 20 * src[base + xc]
        + 20 * src[base + xc + 1] - 5 * src[base + xc + 2] + src[base + xc + 3] as int
}

/// The six-tap filter down a column: rows `yr - 2` to `yr + 3` (rows above 0 taken
/// as row 0) at column `xc`.
pub open spec fn vsum6(src: Seq<u8>, stride: int, xc: int, yr: int) -> int {
    src[nonneg(yr - 2) * stride + xc] as int - 5 * src[nonneg(yr - 1) * stride + xc]
        + 20 * src[yr * stride + xc] + 20 * src[(yr + 1) * stride + xc]
        - 5 * src[(yr + 2) * stride + xc] + src[(yr + 3) * stride + xc] as int
}

/// The bilinear chroma sample at `(xc, yr)` with eighth-sample weights `(dx, dy)`.
pub open spec fn chroma_sample(src: Seq<u8>, stride: int, xc: int, yr: int, dx: int, dy: int) -> int {
    let a = src[yr * stride + xc] as int;
    let b = src[yr * stride + xc + 1] as int;
    let c = src[(yr + 1) * stride + xc] as int;
    let d = src[(yr + 1) * stride + xc + 1] as int;
    clip_pixel(((8 - dx) * (8 - dy) * a + dx * (8 - dy) * b + (8 - dx) * dy * c + dx * dy * d + 32) / 64)
}

/// How a block is predicted from its reference.
#[derive(Clone, Copy)]
enum InterKind {
    Copy,
    LumaH,
    LumaV,
    Chroma(i32, i32),
}

/// The predicted sample at row `yr` and column `xc` of the reference.
spec fn inter_sample(kind: InterKind, src: Seq<u8>, stride: int, xc: int, yr: int) -> u8 {
    match kind {
        InterKind::Copy => src[yr * stride + xc],
        InterKind::LumaH => clip_pixel((hsum6(src, yr * stride, xc) + 16) / 32) as u8,
        InterKind::LumaV => clip_pixel((vsum6(src, stride, xc, yr) + 16) / 32) as u8,
        InterKind::Chroma(dx, dy) => chroma_sample(src, stride, xc, yr, dx as int, dy as int) as u8,
    }
}

/// The rows below and the columns right of a sample that its prediction reads.
spec fn inter_reach(kind: InterKind) -> (int, int) {
    match kind {
        InterKind::Copy => (0, 0),
        InterKind::LumaH => (0, 3),
        InterKind::LumaV => (3, 0),
        InterKind::Chroma(_, _) => (1, 1),
    }
}

spec fn kind_ok(kind: InterKind) -> bool {
    match kind {
        InterKind::Chroma(dx, dy) => 0 <= dx < 8 && 0 <= dy < 8,
        _ => true,
    }
}

/// A block of `width` by `height` at `(x, y)`, with what its prediction reads
/// beside it, lies in a reference of `len` samples.
spec fn kind_block_ok(kind: InterKind, len: int, stride: int, x: int, y: int, width: int, height: int) -> bool {
    width == 0 || height == 0 || (
        y + height - 1 + inter_reach(kind).0 <= usize::MAX
        && (y + height - 1 + inter_reach(kind).0) * stride + x + width - 1 + inter_reach(kind).1 < len)
}

/// The predicted block: sample `(row, col)` at `row * width + col`, the rest kept.
pub open spec fn predicted_block(dst: Seq<u8>, old_dst: Seq<u8>, width: int, height: int, f: spec_fn(int, int) -> u8) -> bool {
    &&& dst.len() == old_dst.len()
    &&& forall|row: int, col: int| 0 <= row < height && 0 <= col < width ==> #[trigger] dst[row * width + col] == f(row, col)
    &&& forall|k: int| width * height <= k < dst.len() ==> #[trigger] dst[k] == old_dst[k]
}

fn inter_pixel(kind: InterKind, src: &[u8], stride: usize, xc: usize, yr: usize) -> (r: u8)
    requires
        kind_ok(kind),
        yr + inter_reach(kind).0 <= usize::MAX,
        (yr + inter_reach(kind).0) * stride + xc + inter_reach(kind).1 < src@.len(),
    ensures
        r == inter_sample(kind, src@, stride as int, xc as int, yr as int),
{
    let len = src.len();
    match kind {
        InterKind::Copy => src[yr * stride + xc],
        InterKind::LumaH => {
            assert(yr * stride <= (yr + 0) * stride);
            let base = yr * stride;
            let a = src[base + if xc >= 2 { xc - 2 } else { 0 }] as i32;
            let b = src[base + if xc >= 1 { xc - 1 } else { 0 }] as i32;
            let c = src[base + xc] as i32;
            let d = src[base + xc + 1] as i32;
            let e = src[base + xc + 2] as i32;
            let f = src[base + xc + 3] as i32;
            let sum = a - 5 * b + 20 * c + 20 * d - 5 * e + f;
            proof {
                vstd::arithmetic::power2::lemma2_to64();
            }
            clip_u8(asr(sum + 16, 5))
        },
        InterKind::LumaV => {
            assert(yr * stride <= (yr + 3) * stride && (yr + 1) * stride <= (yr + 3) * stride
                && (yr + 2) * stride <= (yr + 3) * stride) by (nonlinear_arith);
            let r0 = if yr >= 2 { yr - 2 } else { 0 };
            let r1 = if yr >= 1 { yr - 1 } else { 0 };
            assert(r0 * stride <= yr * stride && r1 * stride <= yr * stride) by (nonlinear_arith)
                requires r0 <= yr, r1 <= yr;
            let a = src[r0 * stride + xc] as i32;
            let b = src[r1 * stride + xc] as i32;
            let c = src[yr * stride + xc] as i32;
            let d = src[(yr + 1) * stride + xc] as i32;
            let e = src[(yr + 2) * stride + xc] as i32;
            let f = src[(yr + 3) * stride + xc] as i32;
            let sum = a - 5 * b + 20 * c + 20 * d - 5 * e + f;
            proof {
                vstd::arithmetic::power2::lemma2_to64();
            }
            clip_u8(asr(sum + 16, 5))
        },
        InterKind::Chroma(dx, dy) => {
            assert(yr * stride <= (yr + 1) * stride) by (nonlinear_arith);
            let a = src[yr * stride + xc] as i32;
            let b = src[yr * stride + xc + 1] as i32;
            let c = src[(yr + 1) * stride + xc] as i32;
            let d = src[(yr + 1) * stride + xc + 1] as i32;
            assert(0 <= (8 - dx) * (8 - dy) <= 64 && 0 <= dx * (8 - dy) <= 64 && 0 <= (8 - dx) * dy <= 64 && 0 <= dx * dy <= 64)
                by (nonlinear_arith) requires 0 <= dx < 8, 0 <= dy < 8;
            assert(0 <= (8 - dx) * (8 - dy) * a <= 64 * 255 && 0 <= dx * (8 - dy) * b <= 64 * 255
                && 0 <= (8 - dx) * dy * c <= 64 * 255 && 0 <= dx * dy * d <= 64 * 255) by (nonlinear_arith)
                requires 0 <= (8 - dx) * (8 - dy) <= 64, 0 <= dx * (8 - dy) <= 64, 0 <= (8 - dx) * dy <= 64, 0 <= dx * dy <= 64,
                    0 <= a <= 255, 0 <= b <= 255, 0 <= c <= 255, 0 <= d <= 255;
            let v = (8 - dx) * (8 - dy) * a + dx * (8 - dy) * b + (8 - dx) * dy * c + dx * dy * d + 32;
            proof {
                vstd::arithmetic::power2::lemma2_to64();
            }
            clip_u8(asr(v, 6))
        },
    }
}

proof fn lemma_row_offset(row: int, col: int, width: int)
    requires
        0 <= col < width,
        0 <= row,
    ensures
        row * width + col < (row + 1) * width,
        (row + 1) * width == row * width + width,
{
    assert(row * width + col < (row + 1) * width && (row + 1) * width == row * width + width) by (nonlinear_arith)
        requires 0 <= col < width, 0 <= row;
}

fn fill_block(kind: InterKind, src: &[u8], x: usize, y: usize, width: usize, height: usize, stride: usize, dst: &mut [u8])
    requires
        kind_ok(kind),
        width * height <= old(dst)@.len(),
        kind_block_ok(kind, src@.len() as int, stride as int, x as int, y as int, width as int, height as int),
    ensures
        predicted_block(final(dst)@, old(dst)@, width as int, height as int,
            |row: int, col: int| inter_sample(kind, src@, stride as int, x + col, y + row)),
{
    let ghost rch = inter_reach(kind);
    let src_len = src.len();
    let dst_len = dst.len();
    if width == 0 || height == 0 {
        assert(height * width == width * height) by (nonlinear_arith);
        assert(width * height == 0) by (nonlinear_arith) requires width == 0 || height == 0;
        return;
    }
    let mut row: usize = 0;
    while row < height
        invariant
            0 <= row <= height,
            kind_ok(kind),
            rch == inter_reach(kind),
            0 <= rch.0 <= 3, 0 <= rch.1 <= 3,
            src_len == src@.len(),
            dst_len == dst@.len(),
            width > 0 && height > 0,
            dst@.len() == old(dst)@.len(),
            width * height <= dst@.len(),
            y + height - 1 + rch.0 <= usize::MAX,
            (y + height - 1 + rch.0) * stride + x + width - 1 + rch.1 < src_len,
            forall|r: int, c: int| 0 <= r < row && 0 <= c < width ==> #[trigger] dst@[r * width + c] == inter_sample(kind, src@, stride as int, x + c, y + r),
            forall|k: int| row * width <= k < dst@.len() ==> #[trigger] dst@[k] == old(dst)@[k],
        decreases height - row,
    {
        assert(row * width + width <= width * height && (y + row + rch.0) * stride <= (y + height - 1 + rch.0) * stride)
            by (nonlinear_arith) requires row < height, 0 <= rch.0;
        let drow = row * width;
        let yr = y + row;
        let mut col: usize = 0;
        while col < width
            invariant
                0 <= col <= width,
                row < height,
                kind_ok(kind),
                rch == inter_reach(kind),
                0 <= rch.0 <= 3, 0 <= rch.1 <= 3,
                src_len == src@.len(),
                dst_len == dst@.len(),
                dst@.len() == old(dst)@.len(),
                drow == row * width,
                yr == y + row,
                drow + width <= width * height,
                width * height <= dst@.len(),
                yr + rch.0 <= usize::MAX,
                width == 0 || (yr + rch.0) * stride + x + width - 1 + rch.1 < src_len,
                forall|r: int, c: int| 0 <= r < row && 0 <= c < width ==> #[trigger] dst@[r * width + c] == inter_sample(kind, src@, stride as int, x + c, y + r),
                forall|c: int| 0 <= c < col ==> #[trigger] dst@[drow + c] == inter_sample(kind, src@, stride as int, x + c, y + row),
                forall|k: int| drow + col <= k < dst@.len() ==> #[trigger] dst@[k] == old(dst)@[k],
            decreases width - col,
        {
            let v = inter_pixel(kind, src, stride, x + col, yr);
            let ghost prev = dst@;
            dst[drow + col] = v;
            proof {
                assert forall|r: int, c: int| 0 <= r < row && 0 <= c < width implies #[trigger] dst@[r * width + c] == prev[r * width + c] by {
                    lemma_row_offset(r, c, width as int);
                    assert((r + 1) * width <= row * width) by (nonlinear_arith) requires r + 1 <= row, width >= 0;
                }
            }
            col = col + 1;
        }
        assert forall|r: int, c: int| 0 <= r < row + 1 && 0 <= c < width implies #[trigger] dst@[r * width + c] == inter_sample(kind, src@, stride as int, x + c, y + r) by {
            if r == row {
                assert(r * width + c == drow + c);
            }
        }
        assert((row + 1) * width == drow + width) by (nonlinear_arith) requires drow == row * width;
        row = row + 1;
    }
    assert(height * width == width * height) by (nonlinear_arith);
}

/// Copy a block of `width` by `height` at `(x, y)` of `src` (rows `stride` apart).
pub fn copy_block(src: &[u8], x: usize, y: usize, width: usize, height: usize, stride: usize, dst: &mut [u8])
    requires
        width * height <= old(dst)@.len(),
        width == 0 || height == 0 || (y + height - 1 <= usize::MAX && (y + height - 1) * stride + x + width - 1 < src@.len()),
    ensures
        predicted_block(final(dst)@, old(dst)@, width as int, height as int,
            |row: int, col: int| src@[(y + row) * stride + x + col]),
{
    fill_block(InterKind::Copy, src, x, y, width, height, stride, dst);
    assert forall|row: int, col: int| 0 <= row < height && 0 <= col < width implies
        #[trigger] dst@[row * width + col] == src@[(y + row) * stride + x + col] by {}
}

/// The integer sample position reached from `p` by the vector component `mv` with
/// `shift` fractional bits: the position as `i32`, plus the vector divided toward
/// zero, converted to `usize` by wrapping.
pub open spec fn full_sample_pos(p: usize, mv: i32, shift: int) -> int {
    (((p as i32) as int + (mv as int) / vstd::arithmetic::power2::pow2(shift as nat) as int) as usize) as int
}

/// The reference block predicted by a luma vector, with what the filters read beside
/// it, lies in the reference.
pub open spec fn luma_inter_ok(len: int, mv_x: i32, mv_y: i32, x: usize, y: usize, width: int, height: int, stride: int) -> bool {
    let fx = full_sample_pos(x, mv_x, 2);
    let fy = full_sample_pos(y, mv_y, 2);
    let (xf, yf) = ((mv_x as int) % 4, (mv_y as int) % 4);
    &&& i32::MIN <= (x as i32) as int + (mv_x as int) / 4 <= i32::MAX
    &&& i32::MIN <= (y as i32) as int + (mv_y as int) / 4 <= i32::MAX
    &&& width == 0 || height == 0 || (
        if xf == 0 && yf == 0 { fy + height - 1 <= usize::MAX && (fy + height - 1) * stride + fx + width - 1 < len }
        else if xf == 0 { fy + height + 2 <= usize::MAX && (fy + height - 1 + 3) * stride + fx + width - 1 < len }
        else if yf == 0 { fy + height - 1 <= usize::MAX && (fy + height - 1) * stride + fx + width - 1 + 3 < len }
        else { fy + height + 2 <= usize::MAX && (fy + height + 2) * stride + fx + width - 1 + 3 < len })
}

/// The luma prediction of one sample `(row, col)` of a block at `(fx, fy)` of the
/// reference with fractional position `(xf, yf)`; the two-dimensional case goes
/// through an intermediate row filter `t`.
pub open spec fn luma_inter_sample(src: Seq<u8>, stride: int, fx: int, fy: int, xf: int, yf: int, row: int, col: int) -> u8 {
    if xf == 0 && yf == 0 {
        src[(fy + row) * stride + fx + col]
    } else if xf == 0 {
        clip_pixel((vsum6(src, stride, fx + col, fy + row) + 16) / 32) as u8
    } else if yf == 0 {
        clip_pixel((hsum6(src, (fy + row) * stride, fx + col) + 16) / 32) as u8
    } else {
        clip_pixel((two_d_sum(src, stride, fx, fy, row, col) + 512) / 1024) as u8
    }
}

/// The intermediate row-filtered value of row `r` (rows above 0 taken as row 0) at
/// column `c` of a block at `(fx, fy)`.
pub open spec fn row_filtered(src: Seq<u8>, stride: int, fx: int, fy: int, r: int, c: int) -> int {
    clip3(-32768, 32767, (hsum6(src, nonneg(fy + r - 2) * stride, fx + c) + 16) / 32)
}

/// The column filter over the intermediate rows `row` to `row + 5`.
pub open spec fn two_d_sum(src: Seq<u8>, stride: int, fx: int, fy: int, row: int, col: int) -> int {
    row_filtered(src, stride, fx, fy, row, col) - 5 * row_filtered(src, stride, fx, fy, row + 1, col)
        + 20 * row_filtered(src, stride, fx, fy, row + 2, col) + 20 * row_filtered(src, stride, fx, fy, row + 3, col)
        - 5 * row_filtered(src, stride, fx, fy, row + 4, col) + row_filtered(src, stride, fx, fy, row + 5, col)
}

fn luma_2d(src: &[u8], x: usize, y: usize, width: usize, height: usize, stride: usize, dst: &mut [u8])
    requires
        width * height <= old(dst)@.len(),
        width == 0 || height == 0 || (y + height + 2 <= usize::MAX && (y + height + 2) * stride + x + width - 1 + 3 < src@.len()),
        (width + 5) * (height + 5) <= usize::MAX,
    ensures
        predicted_block(final(dst)@, old(dst)@, width as int, height as int,
            |row: int, col: int| luma_inter_sample(src@, stride as int, x as int, y as int, 1, 1, row, col)),
{
    if width == 0 || height == 0 {
        return;
    }
    let src_len = src.len();
    let dst_len = dst.len();
    let mut temp: Vec<i16> = Vec::new();
    assert(height + 5 <= (width + 5) * (height + 5) && (height + 5) * width <= (width + 5) * (height + 5)) by (nonlinear_arith);
    let th = height + 5;
    let mut r: usize = 0;
    while r < th
        invariant
            0 <= r <= th,
            th == height + 5,
            width > 0,
            src_len == src@.len(),
            (height + 5) * width <= usize::MAX,
            y + height + 2 <= usize::MAX,
            (y + height + 2) * stride + x + width - 1 + 3 < src_len,
            temp@.len() == r * width,
            forall|rr: int, c: int| 0 <= rr < r && 0 <= c < width ==>
                #[trigger] temp@[rr * width + c] as int == row_filtered(src@, stride as int, x as int, y as int, rr, c),
        decreases th - r,
    {
        let sy = if r >= 2 { y + (r - 2) } else if y >= 2 - r { y - (2 - r) } else { 0 };
        assert(sy * stride <= (y + height + 2) * stride) by (nonlinear_arith) requires sy <= y + height + 2;
        let mut c: usize = 0;
        while c < width
            invariant
                0 <= c <= width,
                r < th,
                th == height + 5,
                src_len == src@.len(),
                sy == nonneg(y + r - 2),
                sy * stride + x + width - 1 + 3 < src_len,
                temp@.len() == r * width + c,
                forall|rr: int, cc: int| 0 <= rr < r && 0 <= cc < width ==>
                    #[trigger] temp@[rr * width + cc] as int == row_filtered(src@, stride as int, x as int, y as int, rr, cc),
                forall|cc: int| 0 <= cc < c ==>
                    #[trigger] temp@[r * width + cc] as int == row_filtered(src@, stride as int, x as int, y as int, r as int, cc),
            decreases width - c,
        {
            let h = inter_pixel_raw_h(src, stride, x + c, sy);
            let ghost prev = temp@;
            temp.push(h);
            proof {
                assert forall|rr: int, cc: int| 0 <= rr < r && 0 <= cc < width implies
                    #[trigger] temp@[rr * width + cc] == prev[rr * width + cc] by {
                    lemma_row_offset(rr, cc, width as int);
                    assert((rr + 1) * width <= r * width) by (nonlinear_arith) requires rr + 1 <= r, width >= 0;
                }
                assert(temp@[r * width + c] == h);
            }
            c = c + 1;
        }
        assert((r + 1) * width == r * width + width) by (nonlinear_arith);
        r = r + 1;
    }
    let mut row: usize = 0;
    while row < height
        invariant
            0 <= row <= height,
            width > 0,
            dst_len == dst@.len(),
            height + 5 <= usize::MAX,
            (height + 5) * width <= usize::MAX,
            temp@.len() == (height + 5) * width,
            forall|rr: int, c: int| 0 <= rr < height + 5 && 0 <= c < width ==>
                #[trigger] temp@[rr * width + c] as int == row_filtered(src@, stride as int, x as int, y as int, rr, c),
            forall|rr: int, c: int| 0 <= rr < height + 5 && 0 <= c < width ==> -32768 <= #[trigger] temp@[rr * width + c] <= 32767,
            dst@.len() == old(dst)@.len(),
            width * height <= dst@.len(),
            forall|r: int, c: int| 0 <= r < row && 0 <= c < width ==>
                #[trigger] dst@[r * width + c] == luma_inter_sample(src@, stride as int, x as int, y as int, 1, 1, r, c),
            forall|k: int| row * width <= k < dst@.len() ==> #[trigger] dst@[k] == old(dst)@[k],
        decreases height - row,
    {
        assert(row * width + width <= width * height) by (nonlinear_arith) requires row < height;
        let drow = row * width;
        let mut col: usize = 0;
        while col < width
            invariant
                0 <= col <= width,
                row < height,
                dst_len == dst@.len(),
                height + 5 <= usize::MAX,
                (height + 5) * width <= usize::MAX,
                temp@.len() == (height + 5) * width,
                forall|rr: int, c: int| 0 <= rr < height + 5 && 0 <= c < width ==>
                    #[trigger] temp@[rr * width + c] as int == row_filtered(src@, stride as int, x as int, y as int, rr, c),
                dst@.len() == old(dst)@.len(),
                drow == row * width,
                drow + width <= width * height,
                width * height <= dst@.len(),
                forall|r: int, c: int| 0 <= r < row && 0 <= c < width ==>
                    #[trigger] dst@[r * width + c] == luma_inter_sample(src@, stride as int, x as int, y as int, 1, 1, r, c),
                forall|c: int| 0 <= c < col ==>
                    #[trigger] dst@[drow + c] == luma_inter_sample(src@, stride as int, x as int, y as int, 1, 1, row as int, c),
                forall|k: int| drow + col <= k < dst@.len() ==> #[trigger] dst@[k] == old(dst)@[k],
            decreases width - col,
        {
            let mut idx: [usize; 6] = [0; 6];
            let mut i: usize = 0;
            while i < 6
                invariant
                    0 <= i <= 6,
                    row < height,
                    col < width,
                    height + 5 <= usize::MAX,
                    (height + 5) * width <= usize::MAX,
                    forall|j: int| 0 <= j < i ==> #[trigger] idx@[j] as int == (row + j) * width + col,
                    forall|j: int| 0 <= j < i ==> #[trigger] idx@[j] < (height + 5) * width,
                decreases 6 - i,
            {
                assert((row + i) * width + col < (height + 5) * width && (row + i) * width <= (height + 5) * width) by (nonlinear_arith)
                    requires row < height, i < 6, col < width;
                idx[i] = (row + i) * width + col;
                i = i + 1;
            }
            let t0 = temp[idx[0]] as i32;
            let t1 = temp[idx[1]] as i32;
            let t2 = temp[idx[2]] as i32;
            let t3 = temp[idx[3]] as i32;
            let t4 = temp[idx[4]] as i32;
            let t5 = temp[idx[5]] as i32;
            let sum = t0 - 5 * t1 + 20 * t2 + 20 * t3 - 5 * t4 + t5;
            proof {
                vstd::arithmetic::power2::lemma2_to64();
            }
            let v = clip_u8(asr(sum + 512, 10));
            let ghost prev = dst@;
            dst[drow + col] = v;
            proof {
                assert forall|r: int, c: int| 0 <= r < row && 0 <= c < width implies #[trigger] dst@[r * width + c] == prev[r * width + c] by {
                    lemma_row_offset(r, c, width as int);
                    assert((r + 1) * width <= row * width) by (nonlinear_arith) requires r + 1 <= row, width >= 0;
                }
            }
            col = col + 1;
        }
        assert forall|r: int, c: int| 0 <= r < row + 1 && 0 <= c < width implies
            #[trigger] dst@[r * width + c] == luma_inter_sample(src@, stride as int, x as int, y as int, 1, 1, r, c) by {
            if r == row {
                assert(r * width + c == drow + c);
            }
        }
        assert((row + 1) * width == drow + width) by (nonlinear_arith) requires drow == row * width;
        row = row + 1;
    }
    assert(height * width == width * height) by (nonlinear_arith);
}

fn inter_pixel_raw_h(src: &[u8], stride: usize, xc: usize, yr: usize) -> (r: i16)
    requires
        yr * stride + xc + 3 < src@.len(),
    ensures
        r as int == clip3(-32768, 32767, (hsum6(src@, yr * stride, xc as int) + 16) / 32),
        -32768 <= r <= 32767,
{
    let len = src.len();
    let base = yr * stride;
    let a = src[base + if xc >= 2 { xc - 2 } else { 0 }] as i32;
    let b = src[base + if xc >= 1 { xc - 1 } else { 0 }] as i32;
    let c = src[base + xc] as i32;
    let d = src[base + xc + 1] as i32;
    let e = src[base + xc + 2] as i32;
    let f = src[base + xc + 3] as i32;
    let sum = a - 5 * b + 20 * c + 20 * d - 5 * e + f;
    proof {
        vstd::arithmetic::power2::lemma2_to64();
    }
    let v = asr(sum + 16, 5);
    if v < -32768 { -32768 } else if v > 32767 { 32767 } else { v as i16 }
}

/// Predict a luma block at `(x, y)` displaced by the quarter-sample vector
/// `(mv_x, mv_y)`: a copy at full samples, the six-tap filter across or down at
/// fractional positions in one direction, both filters otherwise.
pub fn predict_luma_inter(ref_frame: &[u8], mv_x: i32, mv_y: i32, x: usize, y: usize, width: usize, height: usize, stride: usize, output: &mut [u8]) -> (r: Result<()>)
    requires
        width * height <= old(output)@.len(),
        (width + 5) * (height + 5) <= usize::MAX,
        luma_inter_ok(ref_frame@.len() as int, mv_x, mv_y, x, y, width as int, height as int, stride as int),
    ensures
        r is Ok,
        ({
            let fx = full_sample_pos(x, mv_x, 2);
            let fy = full_sample_pos(y, mv_y, 2);
            let xf = (mv_x as int) % 4;
            let yf = (mv_y as int) % 4;
            predicted_block(final(output)@, old(output)@, width as int, height as int,
                |row: int, col: int| luma_inter_sample(ref_frame@, stride as int, fx, fy, xf, yf, row, col))
        }),
{
    proof {
        vstd::arithmetic::power2::lemma2_to64();
    }
    let xi = #[verifier::truncate] (x as i32);
    let yi = #[verifier::truncate] (y as i32);
    let fx = #[verifier::truncate] ((xi + asr(mv_x, 2)) as usize);
    let fy = #[verifier::truncate] ((yi + asr(mv_y, 2)) as usize);
    let xm = mv_x & 3;
    let ym = mv_y & 3;
    assert(xm == mv_x % 4 && ym == mv_y % 4) by (bit_vector)
        requires xm == mv_x & 3, ym == mv_y & 3;
    let ghost xf = (mv_x as int) % 4;
    let ghost yf = (mv_y as int) % 4;
    if xm == 0 && ym == 0 {
        fill_block(InterKind::Copy, ref_frame, fx, fy, width, height, stride, output);
    } else if xm == 0 {
        fill_block(InterKind::LumaV, ref_frame, fx, fy, width, height, stride, output);
    } else if ym == 0 {
        fill_block(InterKind::LumaH, ref_frame, fx, fy, width, height, stride, output);
    } else {
        luma_2d(ref_frame, fx, fy, width, height, stride, output);
        assert forall|row: int, col: int| 0 <= row < height && 0 <= col < width implies
            #[trigger] output@[row * width + col] == luma_inter_sample(ref_frame@, stride as int, fx as int, fy as int, xf, yf, row, col) by {
            assert(output@[row * width + col] == luma_inter_sample(ref_frame@, stride as int, fx as int, fy as int, 1, 1, row, col));
        }
    }
    Ok(())
}

/// The reference block of a chroma vector, with the sample below and right of it,
/// lies in the reference.
pub open spec fn chroma_inter_ok(len: int, mv_x: i32, mv_y: i32, x: usize, y: usize, width: int, height: int, stride: int) -> bool {
    let fx = full_sample_pos(x, mv_x, 3);
    let fy = full_sample_pos(y, mv_y, 3);
    let (xf, yf) = ((mv_x as int) % 8, (mv_y as int) % 8);
    &&& i32::MIN <= (x as i32) as int + (mv_x as int) / 8 <= i32::MAX
    &&& i32::MIN <= (y as i32) as int + (mv_y as int) / 8 <= i32::MAX
    &&& width == 0 || height == 0 || (
        if xf == 0 && yf == 0 { fy + height - 1 <= usize::MAX && (fy + height - 1) * stride + fx + width - 1 < len }
        else { fy + height <= usize::MAX && (fy + height) * stride + fx + width < len })
}

/// Predict a chroma block at `(x, y)` displaced by the eighth-sample vector
/// `(mv_x, mv_y)`: a copy at full samples, bilinear weights otherwise.
pub fn predict_chroma_inter(ref_frame: &[u8], mv_x: i32, mv_y: i32, x: usize, y: usize, width: usize, height: usize, stride: usize, output: &mut [u8]) -> (r: Result<()>)
    requires
        width * height <= old(output)@.len(),
        chroma_inter_ok(ref_frame@.len() as int, mv_x, mv_y, x, y, width as int, height as int, stride as int),
    ensures
        r is Ok,
        ({
            let fx = full_sample_pos(x, mv_x, 3);
            let fy = full_sample_pos(y, mv_y, 3);
            let xf = (mv_x as int) % 8;
            let yf = (mv_y as int) % 8;
            predicted_block(final(output)@, old(output)@, width as int, height as int,
                |row: int, col: int| if xf == 0 && yf == 0 { ref_frame@[(fy + row) * stride + fx + col] }
                    else { chroma_sample(ref_frame@, stride as int, fx + col, fy + row, xf, yf) as u8 })
        }),
{
    proof {
        vstd::arithmetic::power2::lemma2_to64();
    }
    let xi = #[verifier::truncate] (x as i32);
    let yi = #[verifier::truncate] (y as i32);
    let fx = #[verifier::truncate] ((xi + asr(mv_x, 3)) as usize);
    let fy = #[verifier::truncate] ((yi + asr(mv_y, 3)) as usize);
    let xm = mv_x & 7;
    let ym = mv_y & 7;
    assert(xm == mv_x % 8 && ym == mv_y % 8) by (bit_vector)
        requires xm == mv_x & 7, ym == mv_y & 7;
    if xm == 0 && ym == 0 {
        fill_block(InterKind::Copy, ref_frame, fx, fy, width, height, stride, output);
    } else {
        fill_block(InterKind::Chroma(xm, ym), ref_frame, fx, fy, width, height, stride, output);
    }
    Ok(())
}

/// The rounded average of two predictions, for every sample of `output`.
pub fn predict_bidirectional(pred_l0: &[u8], pred_l1: &[u8], output: &mut [u8])
    requires
        pred_l0@.len() >= old(output)@.len(),
        pred_l1@.len() >= old(output)@.len(),
    ensures
        final(output)@.len() == old(output)@.len(),
        forall|k: int| 0 <= k < old(output)@.len() ==>
            #[trigger] final(output)@[k] == ((pred_l0@[k] + pred_l1@[k] + 1) / 2) as u8,
{
    let n = output.len();
    let mut i: usize = 0;
    while i < n
        invariant
            0 <= i <= n,
            n == output@.len(),
            n == old(output)@.len(),
            pred_l0@.len() >= n,
            pred_l1@.len() >= n,
            forall|k: int| 0 <= k < i ==> #[trigger] output@[k] == ((pred_l0@[k] + pred_l1@[k] + 1) / 2) as u8,
        decreases n - i,
    {
        output[i] = ((pred_l0[i] as u16 + pred_l1[i] as u16 + 1) / 2) as u8;
        i = i + 1;
    }
}

} // verus!
