//! Rotation by quarter turns and flipping of YUV 4:2:0 frames.
use vstd::prelude::*;
use crate::error::{Error, Result};
use crate::frame::{Frame, Plane, PixelFormat};
use super::{Filter, lemma_row_col_unique};

verus! {

/// The operations.
#[derive(Debug, Clone, Copy, PartialEq, Eq, Structural)]
pub enum TransposeOp {
    /// A quarter turn clockwise.
    Rotate90,
    /// A half turn.
    Rotate180,
    /// A quarter turn counter-clockwise.
    Rotate270,
    /// Mirror left to right.
    FlipH,
    /// Mirror top to bottom.
    FlipV,
    /// Flip along the main diagonal: width and height swap, sample `(x, y)` goes to
    /// `(y, x)`.
    Transpose,
    /// Flip along the anti-diagonal: width and height swap, sample `(x, y)` goes to
    /// `(h - 1 - y, w - 1 - x)`.
    ReverseTranspose,
}

/// A rotation or flip filter.
pub struct TransposeFilter {
    operation: TransposeOp,
}

/// The operation swaps width and height.
pub open spec fn swaps_dims(op: TransposeOp) -> bool {
    match op {
        TransposeOp::Rotate90 | TransposeOp::Rotate270 | TransposeOp::Transpose | TransposeOp::ReverseTranspose => true,
        _ => false,
    }
}

/// Where sample `(x, y)` of a `w` by `h` plane goes: its row, its column and the
/// length of the rows it goes to.
pub open spec fn dst_place(op: TransposeOp, w: int, h: int, x: int, y: int) -> (int, int, int) {
    match op {
        TransposeOp::Rotate90 => (x, h - 1 - y, h),
        TransposeOp::Transpose => (x, y, h),
        TransposeOp::Rotate180 => (h - 1 - y, w - 1 - x, w),
        TransposeOp::Rotate270 => (w - 1 - x, y, h),
        TransposeOp::ReverseTranspose => (w - 1 - x, h - 1 - y, h),
        TransposeOp::FlipH => (y, w - 1 - x, w),
        TransposeOp::FlipV => (h - 1 - y, x, w),
    }
}

/// The index sample `(x, y)` goes to.
pub open spec fn dst_index(op: TransposeOp, w: int, h: int, x: int, y: int) -> int {
    let (r, c, s) = dst_place(op, w, h, x, y);
    r * s + c
}

/// `dst` is the `w` by `h` plane `src` after the operation.
pub open spec fn transformed(op: TransposeOp, src: Seq<u8>, dst: Seq<u8>, w: int, h: int) -> bool {
    &&& dst.len() == w * h
    &&& forall|x: int, y: int| 0 <= x < w && 0 <= y < h ==>
        dst[#[trigger] dst_index(op, w, h, x, y)] == src[y * w + x]
}

proof fn lemma_dst_index(op: TransposeOp, w: int, h: int, x: int, y: int)
    requires
        0 <= x < w,
        0 <= y < h,
    ensures
        0 <= dst_index(op, w, h, x, y) < w * h,
        0 <= y * w + x < w * h,
        ({
            let (r, c, s) = dst_place(op, w, h, x, y);
            0 <= r && 0 <= c < s
        }),
{
    let (r, c, s) = dst_place(op, w, h, x, y);
    let rows = if s == h { w } else { h };
    assert(r < rows);
    assert(r * s + c < rows * s) by (nonlinear_arith)
        requires 0 <= r < rows, 0 <= c < s;
    assert(rows * s == w * h) by (nonlinear_arith)
        requires (s == h && rows == w) || (s == w && rows == h);
    assert(y * w + x < w * h) by (nonlinear_arith)
        requires 0 <= y < h, 0 <= x < w;
    assert(0 <= y * w) by (nonlinear_arith)
        requires 0 <= y, 0 <= w;
    assert(0 <= r * s) by (nonlinear_arith)
        requires 0 <= r, 0 <= s;
}

proof fn lemma_dst_index_unique(op: TransposeOp, w: int, h: int, x1: int, y1: int, x2: int, y2: int)
    requires
        0 <= x1 < w,
        0 <= y1 < h,
        0 <= x2 < w,
        0 <= y2 < h,
        dst_index(op, w, h, x1, y1) == dst_index(op, w, h, x2, y2),
    ensures
        x1 == x2 && y1 == y2,
{
    lemma_dst_index(op, w, h, x1, y1);
    lemma_dst_index(op, w, h, x2, y2);
    let (r1, c1, s) = dst_place(op, w, h, x1, y1);
    let (r2, c2, s2) = dst_place(op, w, h, x2, y2);
    lemma_row_col_unique(r1, c1, r2, c2, s);
}

/// The operation that undoes `op`: the opposite quarter turn for the quarter
/// turns; a half turn, each flip and each diagonal flip undo themselves.
pub open spec fn inverse_op(op: TransposeOp) -> TransposeOp {
    match op {
        TransposeOp::Rotate90 => TransposeOp::Rotate270,
        TransposeOp::Rotate270 => TransposeOp::Rotate90,
        _ => op,
    }
}

/// Applying an operation to a `w` by `h` plane and then its inverse to the result
/// (whose width and height are swapped where the operation swaps them) gives back
/// the plane: a quarter turn one way and one the other way, two half turns, two
/// horizontal or two vertical flips leave every sample where it was.
pub proof fn lemma_inverse_undoes(op: TransposeOp, a: Seq<u8>, b: Seq<u8>, c: Seq<u8>, w: int, h: int)
    requires
        w >= 0,
        h >= 0,
        a.len() == w * h,
        transformed(op, a, b, w, h),
        transformed(inverse_op(op), b, c, if swaps_dims(op) { h } else { w }, if swaps_dims(op) { w } else { h }),
    ensures
        c == a,
{
    let w2 = if swaps_dims(op) { h } else { w };
    let h2 = if swaps_dims(op) { w } else { h };
    assert(w2 * h2 == w * h) by (nonlinear_arith)
        requires (w2 == h && h2 == w) || (w2 == w && h2 == h);
    assert forall|i: int| 0 <= i < w * h implies c[i] == a[i] by {
        assert(w > 0) by (nonlinear_arith) requires 0 <= i < w * h, h >= 0;
        let x = i % w;
        let y = i / w;
        vstd::arithmetic::div_mod::lemma_fundamental_div_mod(i, w);
        assert(0 <= x < w);
        assert(0 <= y < h) by (nonlinear_arith) requires i == w * y + x, 0 <= x < w, 0 <= i < w * h, w > 0;
        assert(i == y * w + x) by (nonlinear_arith) requires i == w * y + x;
        lemma_dst_index(op, w, h, x, y);
        let (r, col, st) = dst_place(op, w, h, x, y);
        assert(b[dst_index(op, w, h, x, y)] == a[y * w + x]);
        assert(st == w2);
        assert(0 <= col < w2 && 0 <= r < h2);
        assert(dst_index(op, w, h, x, y) == r * w2 + col);
        assert(dst_index(inverse_op(op), w2, h2, col, r) == i);
        assert(c[dst_index(inverse_op(op), w2, h2, col, r)] == b[r * w2 + col]);
    }
    assert(c =~= a);
}

/// Apply the operation to a `w` by `h` plane.
fn transform_plane(op: TransposeOp, src: &[u8], dst: &mut Vec<u8>, width: usize, height: usize)
    requires
        width * height <= src@.len(),
        old(dst)@.len() == width * height,
    ensures
        transformed(op, src@, final(dst)@, width as int, height as int),
{
    let slen = src.len();
    let mut y: usize = 0;
    while y < height
        invariant
            slen == src@.len(),
            y <= height,
            width * height <= src@.len(),
            dst@.len() == width * height,
            forall|x: int, yy: int| 0 <= x < width && 0 <= yy < y ==>
                dst@[#[trigger] dst_index(op, width as int, height as int, x, yy)] == src@[yy * width + x],
        decreases height - y,
    {
        let mut x: usize = 0;
        while x < width
            invariant
                slen == src@.len(),
                y < height,
                x <= width,
                width * height <= src@.len(),
                dst@.len() == width * height,
                forall|xx: int, yy: int| 0 <= xx < width && 0 <= yy < y ==>
                    dst@[#[trigger] dst_index(op, width as int, height as int, xx, yy)] == src@[yy * width + xx],
                forall|xx: int| 0 <= xx < x ==>
                    dst@[#[trigger] dst_index(op, width as int, height as int, xx, y as int)] == src@[y * width + xx],
            decreases width - x,
        {
            proof {
                lemma_dst_index(op, width as int, height as int, x as int, y as int);
            }
            let src_idx = y * width + x;
            let dst_idx = match op {
                TransposeOp::Rotate90 => x * height + (height - 1 - y),
                TransposeOp::Transpose => x * height + y,
                TransposeOp::Rotate180 => (height - 1 - y) * width + (width - 1 - x),
                TransposeOp::Rotate270 => (width - 1 - x) * height + y,
                TransposeOp::ReverseTranspose => (width - 1 - x) * height + (height - 1 - y),
                TransposeOp::FlipH => y * width + (width - 1 - x),
                TransposeOp::FlipV => (height - 1 - y) * width + x,
            };
            let v = src[src_idx];
            let ghost before = dst@;
            proof {
                let d = dst_index(op, width as int, height as int, x as int, y as int);
                assert(dst_idx == d);
            }
            dst.set(dst_idx, v);
            proof {
                let d = dst_index(op, width as int, height as int, x as int, y as int);
                assert(dst@ == before.update(d, v));
                assert forall|xx: int, yy: int| 0 <= xx < width && 0 <= yy < y implies
                    dst@[#[trigger] dst_index(op, width as int, height as int, xx, yy)] == src@[yy * width + xx] by {
                    lemma_dst_index(op, width as int, height as int, xx, yy);
                    if dst_index(op, width as int, height as int, xx, yy) == d {
                        lemma_dst_index_unique(op, width as int, height as int, xx, yy, x as int, y as int);
                    }
                }
                assert forall|xx: int| 0 <= xx < x + 1 implies
                    dst@[#[trigger] dst_index(op, width as int, height as int, xx, y as int)] == src@[y * width + xx] by {
                    lemma_dst_index(op, width as int, height as int, xx, y as int);
                    if xx < x && dst_index(op, width as int, height as int, xx, y as int) == d {
                        lemma_dst_index_unique(op, width as int, height as int, xx, y as int, x as int, y as int);
                    }
                }
            }
            x += 1;
        }
        y += 1;
    }
}

/// A transformed plane of `w` by `h` in a new zeroed plane with rows of `stride`.
fn transform_into_new(op: TransposeOp, src: &Plane, width: usize, height: usize, stride: usize, rows: usize) -> (p: Plane)
    requires
        width * height <= src.data@.len(),
        width * height <= usize::MAX,
        stride * rows == width * height,
    ensures
        p.stride == stride,
        transformed(op, src.data@, p.data@, width as int, height as int),
{
    let mut p = Plane::with_capacity(stride, rows);
    transform_plane(op, src.data.as_slice(), &mut p.data, width, height);
    p
}

impl TransposeFilter {
    /// A filter applying `operation`.
    pub fn new(operation: TransposeOp) -> (f: TransposeFilter)
        ensures
            f.op() == operation,
    {
        TransposeFilter { operation }
    }

    /// The operation.
    pub closed spec fn op(&self) -> TransposeOp {
        self.operation
    }

    /// The frame produced from a YUV 4:2:0 frame: each plane transformed (chroma at
    /// half size), the dimensions swapped for quarter turns, the timestamp kept
    /// and no duration.
    pub open spec fn transposed(&self, frame: &Frame, out: Frame) -> bool {
        let (w, h) = (frame.width as int, frame.height as int);
        let (ow, oh) = if swaps_dims(self.op()) { (h, w) } else { (w, h) };
        &&& out.width == ow
        &&& out.height == oh
        &&& out.pts == frame.pts
        &&& out.duration is None
        &&& out.pixel_format == Some(PixelFormat::Yuv420p)
        &&& out.sample_format is None
        &&& out.sample_rate is None
        &&& out.samples is None
        &&& out.channels is None
        &&& out.planes@.len() == 3
        &&& out.planes@[0].stride == ow
        &&& out.planes@[1].stride == ow / 2
        &&& out.planes@[2].stride == ow / 2
        &&& transformed(self.op(), frame.planes@[0].data@, out.planes@[0].data@, w, h)
        &&& transformed(self.op(), frame.planes@[1].data@, out.planes@[1].data@, w / 2, h / 2)
        &&& transformed(self.op(), frame.planes@[2].data@, out.planes@[2].data@, w / 2, h / 2)
    }

    /// Transform a YUV 4:2:0 frame; fails when it has fewer than three planes.
    fn transpose_yuv420p(&self, input: &Frame) -> (r: Result<Frame>)
        requires
            input.planes@.len() >= 3 ==> {
                &&& input.width * input.height <= input.planes@[0].data@.len()
                &&& (input.width / 2) * (input.height / 2) <= input.planes@[1].data@.len()
                &&& (input.width / 2) * (input.height / 2) <= input.planes@[2].data@.len()
                &&& input.width * input.height * 4 <= usize::MAX
                &&& input.width * 4 <= usize::MAX
                &&& input.height * 4 <= usize::MAX
            },
        ensures
            input.planes@.len() < 3 <==> r is Err,
            r matches Err(e) ==> e.is_invalid(),
            r matches Ok(out) ==> self.transposed(input, out),
    {
        if input.planes.len() < 3 {
            return Err(Error::invalid("transpose", "Invalid YUV420p frame"));
        }
        let width = input.width;
        let height = input.height;
        let op = self.operation;
        let swap = match op {
            TransposeOp::Rotate90 | TransposeOp::Rotate270 | TransposeOp::Transpose | TransposeOp::ReverseTranspose => true,
            _ => false,
        };
        let (ow, oh) = if swap { (height, width) } else { (width, height) };
        proof {
            assert(height * width == width * height) by (nonlinear_arith);
            assert((height / 2) * (width / 2) == (width / 2) * (height / 2)) by (nonlinear_arith);
            assert((width / 2) * (height / 2) <= width * height) by (nonlinear_arith);
        }
        let y_plane = transform_into_new(op, &input.planes[0], width, height, ow, oh);
        let u_plane = transform_into_new(op, &input.planes[1], width / 2, height / 2, ow / 2, oh / 2);
        let v_plane = transform_into_new(op, &input.planes[2], width / 2, height / 2, ow / 2, oh / 2);
        let mut planes: Vec<Plane> = Vec::new();
        planes.push(y_plane);
        planes.push(u_plane);
        planes.push(v_plane);
        Ok(Frame {
            planes,
            pts: input.pts,
            duration: None,
            width: ow,
            height: oh,
            pixel_format: Some(PixelFormat::Yuv420p),
            sample_format: None,
            sample_rate: None,
            samples: None,
            channels: None,
        })
    }
}

/// Filtering a tightly packed YUV 4:2:0 frame with an operation and the result
/// with its inverse gives the frame back: rotating by 90 and then by 270 degrees
/// (or the other way), turning twice by 180 degrees, or flipping twice the same way
/// restores its size, timestamp and every sample of its three planes.
pub proof fn lemma_frame_inverse_undoes(first: TransposeFilter, second: TransposeFilter, frame: Frame, mid: Frame,
    back: Frame)
    requires
        second.op() == inverse_op(first.op()),
        frame.planes@.len() >= 3,
        frame.planes@[0].data@.len() == frame.width * frame.height,
        frame.planes@[1].data@.len() == (frame.width / 2) * (frame.height / 2),
        frame.planes@[2].data@.len() == (frame.width / 2) * (frame.height / 2),
        first.transposed(&frame, mid),
        second.transposed(&mid, back),
    ensures
        back.width == frame.width,
        back.height == frame.height,
        back.pts == frame.pts,
        forall|k: int| 0 <= k < 3 ==> (#[trigger] back.planes@[k]).data@ == frame.planes@[k].data@,
{
    let op = first.op();
    assert(swaps_dims(inverse_op(op)) == swaps_dims(op));
    let w = frame.width as int;
    let h = frame.height as int;
    lemma_inverse_undoes(op, frame.planes@[0].data@, mid.planes@[0].data@, back.planes@[0].data@, w, h);
    lemma_inverse_undoes(op, frame.planes@[1].data@, mid.planes@[1].data@, back.planes@[1].data@, w / 2, h / 2);
    lemma_inverse_undoes(op, frame.planes@[2].data@, mid.planes@[2].data@, back.planes@[2].data@, w / 2, h / 2);
}

impl Filter for TransposeFilter {
    open spec fn accepts(&self, frame: &Frame) -> bool {
        frame.pixel_format == Some(PixelFormat::Yuv420p) && frame.planes@.len() >= 3 ==> {
            &&& frame.width * frame.height <= frame.planes@[0].data@.len()
            &&& (frame.width / 2) * (frame.height / 2) <= frame.planes@[1].data@.len()
            &&& (frame.width / 2) * (frame.height / 2) <= frame.planes@[2].data@.len()
            &&& frame.width * frame.height * 4 <= usize::MAX
            &&& frame.width * 4 <= usize::MAX
            &&& frame.height * 4 <= usize::MAX
        }
    }

    /// Transform a frame: YUV 4:2:0 with three planes only; anything else fails as
    /// invalid.
    fn filter(&mut self, frame: &Frame) -> (r: Result<Frame>)
        ensures
            (frame.pixel_format != Some(PixelFormat::Yuv420p) || frame.planes@.len() < 3) ==> (r matches Err(e) && e.is_invalid()),
            (frame.pixel_format == Some(PixelFormat::Yuv420p) && frame.planes@.len() >= 3) ==>
                (r matches Ok(out) && old(self).transposed(frame, out)),
            *final(self) == *old(self),
    {
        match frame.pixel_format {
            Some(PixelFormat::Yuv420p) => self.transpose_yuv420p(frame),
            _ => Err(Error::invalid("transpose", "Unsupported pixel format (only YUV420p supported)")),
        }
    }

    /// "transpose".
    fn name(&self) -> (s: &str)
        ensures
            s@ == "transpose"@,
    {
        "transpose"
    }
}

} // verus!
