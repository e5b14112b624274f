//! Motion vectors: differences read from the bitstream, median prediction and
//! sub-sample interpolation of reference blocks.
use vstd::prelude::*;
use crate::error::{Error, Result};
use super::nal::{BitReader, rd_se};
use super::direct_mode::median3 as median_of3;

verus! {

/// A motion vector in quarter-sample units.
#[derive(Debug, Clone, Copy, PartialEq, Eq, Structural)]
pub struct MotionVector {
    pub x: i32,
    pub y: i32,
}

impl MotionVector {
    /// The vector `(x, y)`.
    pub fn new(x: i32, y: i32) -> (mv: MotionVector)
        ensures
            mv.x == x && mv.y == y,
    {
        MotionVector { x, y }
    }

    /// The zero vector.
    pub fn zero() -> (mv: MotionVector)
        ensures
            mv.x == 0 && mv.y == 0,
    {
        MotionVector { x: 0, y: 0 }
    }
}

/// Macroblock partitions of inter prediction.
#[derive(Debug, Clone, Copy, PartialEq, Eq, Structural)]
pub enum MbPartition {
    MB16x16,
    MB16x8,
    MB8x16,
    MB8x8,
}

/// Sub-macroblock partitions of an 8x8 partition.
#[derive(Debug, Clone, Copy, PartialEq, Eq, Structural)]
pub enum SubMbPartition {
    SUB8x8,
    SUB8x4,
    SUB4x8,
    SUB4x4,
}

/// Read a motion vector difference: two se(v) codes, x then y.
pub fn parse_mvd(br: &mut BitReader) -> (r: Result<(i32, i32)>)
    requires
        old(br).wf(),
    ensures
        final(br).wf(),
        final(br).bytes() == old(br).bytes(),
        match rd_se(old(br).bytes(), old(br).pos()) {
            Some((x, p1)) => match rd_se(old(br).bytes(), p1) {
                Some((y, p2)) => r matches Ok(v) && v.0 == x && v.1 == y && final(br).pos() == p2,
                None => r is Err,
            },
            None => r is Err,
        },
{
    proof {
        br.lemma_pos();
    }
    let mvd_x = match br.read_se() {
        Ok(v) => v,
        Err(e) => {
            return Err(e);
        },
    };
    proof {
        br.lemma_pos();
    }
    let mvd_y = match br.read_se() {
        Ok(v) => v,
        Err(e) => {
            return Err(e);
        },
    };
    Ok((mvd_x, mvd_y))
}

/// The median of three values.
pub fn median3(a: i32, b: i32, c: i32) -> (r: i32)
    ensures
        r == median_of3(a as int, b as int, c as int),
{
    if a > b {
        if b > c { b } else if a > c { c } else { a }
    } else {
        if a > c { a } else if b > c { c } else { b }
    }
}

/// The predicted vector from the left, top and top-right neighbours.
pub open spec fn predicted_mv(a: Option<MotionVector>, b: Option<MotionVector>, c: Option<MotionVector>) -> MotionVector {
    match (a, b, c) {
        (Some(a), Some(b), Some(c)) => MotionVector {
            x: median_of3(a.x as int, b.x as int, c.x as int) as i32,
            y: median_of3(a.y as int, b.y as int, c.y as int) as i32,
        },
        (Some(a), Some(b), None) => MotionVector {
            x: median_of3(a.x as int, b.x as int, b.x as int) as i32,
            y: median_of3(a.y as int, b.y as int, b.y as int) as i32,
        },
        (Some(a), None, _) => a,
        (None, Some(b), _) => b,
        _ => MotionVector { x: 0, y: 0 },
    }
}

/// Median prediction of a motion vector: the component-wise median when all
/// three neighbours are there, the top vector when the top-right is missing, the one
/// available of left and top, or zero.
pub fn predict_motion_vector(mv_a: Option<MotionVector>, mv_b: Option<MotionVector>, mv_c: Option<MotionVector>) -> (r: MotionVector)
    ensures
        r == predicted_mv(mv_a, mv_b, mv_c),
{
    match (mv_a, mv_b, mv_c) {
        (Some(a), Some(b), Some(c)) => MotionVector::new(median3(a.x, b.x, c.x), median3(a.y, b.y, c.y)),
        (Some(a), Some(b), None) => MotionVector::new(median3(a.x, b.x, b.x), median3(a.y, b.y, b.y)),
        (Some(a), None, _) => a,
        (None, Some(b), _) => b,
        _ => MotionVector::zero(),
    }
}

/// How far right and down of a sample the interpolation of a fractional position
/// reads: copies read nothing more, horizontal half samples one to the right,
/// vertical half samples one below, the others both.
pub open spec fn reach(xf: int, yf: int) -> (int, int) {
    if xf == 0 && yf == 0 { (0, 0) }
    else if xf == 2 && yf == 0 { (1, 0) }
    else if xf == 0 && yf == 2 { (0, 1) }
    else { (1, 1) }
}

/// The interpolated sample at raster offset `o` of the reference for the fractional
/// position `(xf, yf)`.
pub open spec fn interp_sample(src: Seq<u8>, stride: int, o: int, xf: int, yf: int) -> u8 {
    let a = src[o] as int;
    let b = src[o + 1] as int;
    let c = src[o + stride] as int;
    let d = src[o + stride + 1] as int;
    if xf == 0 && yf == 0 { src[o] }
    else if xf == 2 && yf == 0 { ((a + b + 1) / 2) as u8 }
    else if xf == 0 && yf == 2 { ((a + c + 1) / 2) as u8 }
    else if xf == 2 && yf == 2 { ((a + b + c + d + 2) / 4) as u8 }
    else {
        let v = (a * (4 - xf) * (4 - yf) + b * xf * (4 - yf) + c * (4 - xf) * yf + d * xf * yf + 8) / 16;
        (if v < 255 { v } else { 255 }) as u8
    }
}

/// The block of `width` by `height` samples at `(x, y)` of the reference lies in
/// `src`, counting the samples the interpolation reads beside it.
pub open spec fn block_in_source(src_len: int, stride: int, x: int, y: int, width: int, height: int, xf: int, yf: int) -> bool {
    height == 0 || (
        y + height - 1 <= usize::MAX
        && (y + height - 1) * stride + x <= usize::MAX
        && (width == 0 || (y + height - 1) * stride + x + width - 1 + reach_offset(stride, xf, yf) < src_len))
}

/// The offset of the farthest sample the interpolation reads beside a sample.
pub open spec fn reach_offset(stride: int, xf: int, yf: int) -> int {
    (if reach(xf, yf).1 == 1 { stride } else { 0 }) + reach(xf, yf).0
}

proof fn lemma_row_before(r: int, c: int, row: int, width: int)
    requires
        0 <= r < row,
        0 <= c < width,
    ensures
        r * width + c < row * width,
{
    assert(r * width + c < row * width) by (nonlinear_arith)
        requires 0 <= r < row, 0 <= c < width;
}

/// The interpolated block: sample `(row, col)` at `row * width + col`; the rest of
/// `dst` is kept.
pub open spec fn block_written(dst: Seq<u8>, old_dst: Seq<u8>, src: Seq<u8>, stride: int, x: int, y: int, xf: int, yf: int, width: int, height: int) -> bool {
    &&& dst.len() == old_dst.len()
    &&& forall|row: int, col: int| 0 <= row < height && 0 <= col < width ==>
        #[trigger] dst[row * width + col] == interp_sample(src, stride, (y + row) * stride + x + col, xf, yf)
    &&& forall|k: int| width * height <= k < dst.len() ==> #[trigger] dst[k] == old_dst[k]
}

fn interp_at(src: &[u8], stride: usize, o: usize, xf: usize, yf: usize) -> (r: u8)
    requires
        xf < 4, yf < 4,
        o + reach_offset(stride as int, xf as int, yf as int) < src@.len(),
    ensures
        r == interp_sample(src@, stride as int, o as int, xf as int, yf as int),
{
    if xf == 0 && yf == 0 {
        return src[o];
    }
    if xf == 2 && yf == 0 {
        let a = src[o] as u16;
        let b = src[o + 1] as u16;
        return ((a + b + 1) / 2) as u8;
    }
    if xf == 0 && yf == 2 {
        let a = src[o] as u16;
        let c = src[o + stride] as u16;
        return ((a + c + 1) / 2) as u8;
    }
    let a = src[o] as u16;
    let b = src[o + 1] as u16;
    let c = src[o + stride] as u16;
    let d = src[o + stride + 1] as u16;
    if xf == 2 && yf == 2 {
        return ((a + b + c + d + 2) / 4) as u8;
    }
    let wx1 = (4 - xf) as u16;
    let wx2 = xf as u16;
    let wy1 = (4 - yf) as u16;
    let wy2 = yf as u16;
    assert(a * wx1 * wy1 + b * wx2 * wy1 + c * wx1 * wy2 + d * wx2 * wy2 <= 255 * 16) by (nonlinear_arith)
        requires a <= 255, b <= 255, c <= 255, d <= 255, wx1 + wx2 == 4, wy1 + wy2 == 4;
    assert(a * wx1 <= 1020 && b * wx2 <= 1020 && c * wx1 <= 1020 && d * wx2 <= 1020) by (nonlinear_arith)
        requires a <= 255, b <= 255, c <= 255, d <= 255, wx1 <= 4, wx2 <= 4;
    assert(a * wx1 * wy1 <= 4080 && b * wx2 * wy1 <= 4080 && c * wx1 * wy2 <= 4080 && d * wx2 * wy2 <= 4080) by (nonlinear_arith)
        requires a * wx1 <= 1020, b * wx2 <= 1020, c * wx1 <= 1020, d * wx2 <= 1020, wy1 <= 4, wy2 <= 4;
    let v = (a * wx1 * wy1 + b * wx2 * wy1 + c * wx1 * wy2 + d * wx2 * wy2 + 8) / 16;
    if v < 255 { v as u8 } else { 255 }
}

fn interp_block(src: &[u8], stride: usize, x: usize, y: usize, xf: usize, yf: usize, dst: &mut [u8], width: usize, height: usize)
    requires
        xf < 4, yf < 4,
        width * height <= old(dst)@.len(),
        block_in_source(src@.len() as int, stride as int, x as int, y as int, width as int, height as int, xf as int, yf as int),
    ensures
        block_written(final(dst)@, old(dst)@, src@, stride as int, x as int, y as int, xf as int, yf as int, width as int, height as int),
{
    let ghost ro = reach_offset(stride as int, xf as int, yf as int);
    let src_len = src.len();
    let dst_len = dst.len();
    let mut row: usize = 0;
    while row < height
        invariant
            0 <= row <= height,
            xf < 4, yf < 4,
            ro == reach_offset(stride as int, xf as int, yf as int),
            src_len == src@.len(),
            dst_len == dst@.len(),
            dst@.len() == old(dst)@.len(),
            width * height <= dst_len,
            height == 0 || (y + height - 1) * stride + x <= usize::MAX,
            height == 0 || y + height - 1 <= usize::MAX,
            width == 0 || height == 0 || (y + height - 1) * stride + x + width - 1 + ro < src_len,
            forall|r: int, c: int| 0 <= r < row && 0 <= c < width ==>
                #[trigger] dst@[r * width + c] == interp_sample(src@, stride as int, (y + r) * stride + x + c, xf as int, yf as int),
            forall|k: int| row * width <= k < dst@.len() ==> #[trigger] dst@[k] == old(dst)@[k],
        decreases height - row,
    {
        assert((y + row) * stride <= (y + height - 1) * stride && row * width + width <= width * height) by (nonlinear_arith)
            requires row < height;
        let base = (y + row) * stride + x;
        let drow = row * width;
        let mut col: usize = 0;
        while col < width
            invariant
                0 <= col <= width,
                row < height,
                xf < 4, yf < 4,
                ro == reach_offset(stride as int, xf as int, yf as int),
                src_len == src@.len(),
                dst_len == dst@.len(),
                dst@.len() == old(dst)@.len(),
                base == (y + row) * stride + x,
                drow == row * width,
                drow + width <= width * height,
                width * height <= dst_len,
                width == 0 || base + width - 1 + ro < src_len,
                forall|r: int, c: int| 0 <= r < row && 0 <= c < width ==>
                    #[trigger] dst@[r * width + c] == interp_sample(src@, stride as int, (y + r) * stride + x + c, xf as int, yf as int),
                forall|c: int| 0 <= c < col ==>
                    #[trigger] dst@[drow + c] == interp_sample(src@, stride as int, base + c, xf as int, yf as int),
                forall|k: int| drow + col <= k < dst@.len() ==> #[trigger] dst@[k] == old(dst)@[k],
            decreases width - col,
        {
            let v = interp_at(src, stride, base + col, xf, yf);
            let ghost prev = dst@;
            dst[drow + col] = v;
            proof {
                assert forall|r: int, c: int| 0 <= r < row && 0 <= c < width implies
                    #[trigger] dst@[r * width + c] == prev[r * width + c] by {
                    lemma_row_before(r, c, row as int, width as int);
                }
            }
            col = col + 1;
        }
        assert forall|r: int, c: int| 0 <= r < row + 1 && 0 <= c < width implies
            #[trigger] dst@[r * width + c] == interp_sample(src@, stride as int, (y + r) * stride + x + c, xf as int, yf as int) by {
            if r == row {
                assert(r * width + c == drow + c);
            }
        }
        assert((row + 1) * width == drow + width) by (nonlinear_arith) requires drow == row * width;
        row = row + 1;
    }
    assert(height * width == width * height) by (nonlinear_arith);
}

/// Copy a block of `width` by `height` samples at `(x, y)` of `src` (rows `stride`
/// apart) into `dst`, row after row.
pub fn copy_block(src: &[u8], src_stride: usize, x: usize, y: usize, dst: &mut [u8], width: usize, height: usize)
    requires
        width * height <= old(dst)@.len(),
        block_in_source(src@.len() as int, src_stride as int, x as int, y as int, width as int, height as int, 0, 0),
    ensures
        block_written(final(dst)@, old(dst)@, src@, src_stride as int, x as int, y as int, 0, 0, width as int, height as int),
{
    interp_block(src, src_stride, x, y, 0, 0, dst, width, height);
}

/// The integer part of a quarter-sample coordinate: divided by 4 toward zero and
/// converted to `usize` by wrapping.
pub open spec fn qpel_int(v: i32) -> int {
    (((v as int) / 4) as usize) as int
}

/// Interpolate a `block_width` by `block_height` block at quarter-sample position
/// `(x, y)` of a reference frame. A block reaching past the frame fails.
pub fn interpolate_luma_qpel(ref_frame: &[u8], width: usize, height: usize, x: i32, y: i32, output: &mut [u8],
    block_width: usize, block_height: usize) -> (r: Result<()>)
    requires
        qpel_int(x) + block_width <= usize::MAX,
        qpel_int(y) + block_height <= usize::MAX,
        qpel_int(x) + block_width > width || qpel_int(y) + block_height > height || (
            block_width * block_height <= old(output)@.len()
            && block_in_source(ref_frame@.len() as int, width as int, qpel_int(x), qpel_int(y),
                block_width as int, block_height as int, (x as int) % 4, (y as int) % 4)),
    ensures
        (qpel_int(x) + block_width > width || qpel_int(y) + block_height > height) <==> r is Err,
        r matches Err(e) ==> e.is_invalid(),
        r is Err ==> final(output)@ == old(output)@,
        r is Ok ==> block_written(final(output)@, old(output)@, ref_frame@, width as int, qpel_int(x), qpel_int(y),
            (x as int) % 4, (y as int) % 4, block_width as int, block_height as int),
{
    let xs = super::arith::asr(x, 2);
    let ys = super::arith::asr(y, 2);
    proof {
        vstd::arithmetic::power2::lemma2_to64();
    }
    let x_int = #[verifier::truncate] (xs as usize);
    let y_int = #[verifier::truncate] (ys as usize);
    let xm = x & 3;
    let ym = y & 3;
    assert(xm == x % 4 && ym == y % 4) by (bit_vector)
        requires xm == x & 3, ym == y & 3;
    let x_frac = xm as usize;
    let y_frac = ym as usize;
    if x_int + block_width > width || y_int + block_height > height {
        return Err(Error::invalid("motion_comp", "Block extends beyond frame"));
    }
    interp_block(ref_frame, width, x_int, y_int, x_frac, y_frac, output, block_width, block_height);
    Ok(())
}

/// `r` is the median of `a`, `b` and `c`: one of them, no smaller than two of them
/// and no larger than two of them.
pub open spec fn is_median(r: int, a: int, b: int, c: int) -> bool {
    &&& (r == a || r == b || r == c)
    &&& (a <= r && b <= r) || (a <= r && c <= r) || (b <= r && c <= r)
    &&& (r <= a && r <= b) || (r <= a && r <= c) || (r <= b && r <= c)
}

/// Motion vector prediction: with only the left neighbour `a` the prediction is `a`
/// (whatever the top-right), with only the top neighbour `b` it is `b`, with neither
/// it is zero; with left and top but no top-right it is the top vector, and with all
/// three each component is the median of the three neighbours' components.
pub proof fn lemma_predicted_mv_cases(a: Option<MotionVector>, b: Option<MotionVector>, c: Option<MotionVector>)
    ensures
        a is Some && b is None ==> predicted_mv(a, b, c) == a->0,
        a is None && b is Some ==> predicted_mv(a, b, c) == b->0,
        a is None && b is None ==> predicted_mv(a, b, c) == (MotionVector { x: 0, y: 0 }),
        a is Some && b is Some && c is None ==> predicted_mv(a, b, c) == b->0,
        a is Some && b is Some && c is Some ==> {
            let (va, vb, vc) = (a->0, b->0, c->0);
            let r = predicted_mv(a, b, c);
            &&& is_median(r.x as int, va.x as int, vb.x as int, vc.x as int)
            &&& is_median(r.y as int, va.y as int, vb.y as int, vc.y as int)
        },
{
}

/// Sub-sample interpolation: a full-sample position copies the sample; the
/// horizontal half sample is the rounded mean of the sample and its right
/// neighbour, the vertical half sample that of the sample and the one below, and the
/// centre that of all four; every fractional position of a flat area (four equal
/// samples) gives back that value.
pub proof fn lemma_interp_sample(src: Seq<u8>, stride: int, o: int, xf: int, yf: int)
    requires
        0 <= xf < 4,
        0 <= yf < 4,
    ensures ({
        let (a, b, c, d) = (src[o] as int, src[o + 1] as int, src[o + stride] as int, src[o + stride + 1] as int);
        &&& interp_sample(src, stride, o, 0, 0) == src[o]
        &&& interp_sample(src, stride, o, 2, 0) as int == (a + b + 1) / 2
        &&& interp_sample(src, stride, o, 0, 2) as int == (a + c + 1) / 2
        &&& interp_sample(src, stride, o, 2, 2) as int == (a + b + c + d + 2) / 4
        &&& (a == b && b == c && c == d) ==> interp_sample(src, stride, o, xf, yf) as int == a
    }),
{
    let (a, b, c, d) = (src[o] as int, src[o + 1] as int, src[o + stride] as int, src[o + stride + 1] as int);
    assert((a + b + 1) / 2 < 256 && (a + c + 1) / 2 < 256 && (a + b + c + d + 2) / 4 < 256);
    if a == b && b == c && c == d {
        assert(a * (4 - xf) * (4 - yf) + a * xf * (4 - yf) + a * (4 - xf) * yf + a * xf * yf == 16 * a)
            by (nonlinear_arith);
        assert((16 * a + 8) / 16 == a);
    }
}

} // verus!
