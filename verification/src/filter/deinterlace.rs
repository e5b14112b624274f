//! Deinterlacing of YUV 4:2:0 frames: line doubling, blending, linear
//! interpolation and an edge-directed interpolation.
use vstd::prelude::*;
use crate::error::{Error, Result};
use crate::frame::{Frame, Plane, PixelFormat, same_frame};
use super::Filter;

verus! {

/// Deinterlacing methods.
#[derive(Debug, Clone, Copy, PartialEq, Eq, Structural)]
pub enum DeinterlaceMethod {
    /// Line doubling of one field.
    Bob,
    /// Each line blended with its neighbours.
    Blend,
    /// The other field's lines interpolated from the field's.
    Linear,
    /// The other field's lines interpolated along the smoother direction.
    Yadif,
}

/// A deinterlacer; `tff` is true when the top field comes first.
pub struct DeinterlaceFilter {
    method: DeinterlaceMethod,
    tff: bool,
    prev_frame: Option<Frame>,
}

/// Line `y` belongs to the kept field.
pub open spec fn field_line(tff: bool, y: int) -> bool {
    if tff { y % 2 == 0 } else { y % 2 == 1 }
}

/// `|v|`.
pub open spec fn abs_int(v: int) -> int {
    if v < 0 { -v } else { v }
}

/// The deinterlaced sample at `(x, y)` of a `w` by `h` plane `s`.
pub open spec fn deint_sample(m: DeinterlaceMethod, tff: bool, s: Seq<u8>, w: int, h: int, x: int, y: int) -> int {
    let at = |yy: int| s[yy * w + x] as int;
    match m {
        DeinterlaceMethod::Bob => {
            let sy = if tff {
                if y % 2 == 0 { y } else { y - 1 }
            } else {
                if y % 2 == 1 { y } else if y + 1 < h - 1 { y + 1 } else { h - 1 }
            };
            at(sy)
        },
        DeinterlaceMethod::Blend => {
            if y == 0 || y == h - 1 { at(y) } else { (at(y - 1) + 2 * at(y) + at(y + 1)) / 4 }
        },
        DeinterlaceMethod::Linear => {
            if field_line(tff, y) {
                at(y)
            } else if y == 0 {
                at(1)
            } else if y == h - 1 {
                at(h - 2)
            } else {
                (at(y - 1) + at(y + 1)) / 2
            }
        },
        DeinterlaceMethod::Yadif => {
            if field_line(tff, y) {
                at(y)
            } else if y == 0 || y == h - 1 || x == 0 || x == w - 1 {
                if y > 0 && y < h - 1 { (at(y - 1) + at(y + 1)) / 2 } else { at(y) }
            } else {
                let (c, a, b) = (at(y), at(y - 1), at(y + 1));
                let (d1, d2, d3) = (abs_int(a - b), abs_int(c - a), abs_int(c - b));
                if d1 < d2 && d1 < d3 { (a + b) / 2 } else if d2 < d3 { a } else { b }
            }
        },
    }
}

/// `dst` is the `w` by `h` plane `s` deinterlaced.
pub open spec fn deinterlaced(m: DeinterlaceMethod, tff: bool, s: Seq<u8>, dst: Seq<u8>, w: int, h: int) -> bool {
    &&& dst.len() == w * h
    &&& forall|x: int, y: int| 0 <= x < w && 0 <= y < h ==>
        dst[y * w + x] as int == #[trigger] deint_sample(m, tff, s, w, h, x, y)
}

/// The rows a plane must hold: `h`, and two for linear interpolation of a
/// one-line plane whose line is not in the field.
pub open spec fn rows_needed(m: DeinterlaceMethod, tff: bool, h: int) -> int {
    if m == DeinterlaceMethod::Linear && !tff && h == 1 { 2 } else { h }
}

/// One deinterlaced sample.
fn deint_pixel(m: DeinterlaceMethod, tff: bool, src: &[u8], w: usize, h: usize, x: usize, y: usize) -> (r: u8)
    requires
        x < w,
        y < h,
        w * rows_needed(m, tff, h as int) <= src@.len(),
    ensures
        r as int == deint_sample(m, tff, src@, w as int, h as int, x as int, y as int),
{
    let slen = src.len();
    assert(y * w + x < w * h) by (nonlinear_arith)
        requires y < h, x < w;
    assert(w * h <= w * rows_needed(m, tff, h as int)) by (nonlinear_arith)
        requires h <= rows_needed(m, tff, h as int);
    match m {
        DeinterlaceMethod::Bob => {
            let sy = if tff {
                if y % 2 == 0 { y } else { y - 1 }
            } else {
                if y % 2 == 1 { y } else if y + 1 < h - 1 { y + 1 } else { h - 1 }
            };
            assert(sy * w + x < w * h) by (nonlinear_arith)
                requires sy < h, x < w;
            src[sy * w + x]
        },
        DeinterlaceMethod::Blend => {
            if y == 0 || y == h - 1 {
                src[y * w + x]
            } else {
                assert((y + 1) * w + x < w * h) by (nonlinear_arith)
                    requires y + 1 < h, x < w;
                assert((y - 1) * w + x < y * w + x) by (nonlinear_arith)
                    requires y >= 1, x < w;
                let p = src[(y - 1) * w + x] as u16;
                let c = src[y * w + x] as u16;
                let n = src[(y + 1) * w + x] as u16;
                ((p + 2 * c + n) / 4) as u8
            }
        },
        DeinterlaceMethod::Linear => {
            let field = if tff { y % 2 == 0 } else { y % 2 == 1 };
            if field {
                src[y * w + x]
            } else if y == 0 {
                assert(w + x < w * rows_needed(m, tff, h as int)) by (nonlinear_arith)
                    requires x < w, rows_needed(m, tff, h as int) >= 2;
                src[w + x]
            } else if y == h - 1 {
                assert((h - 2) * w + x < y * w + x) by (nonlinear_arith)
                    requires y == h - 1, x < w;
                src[(h - 2) * w + x]
            } else {
                assert((y + 1) * w + x < w * h) by (nonlinear_arith)
                    requires y + 1 < h, x < w;
                assert((y - 1) * w + x < y * w + x) by (nonlinear_arith)
                    requires y >= 1, x < w;
                let p = src[(y - 1) * w + x] as u16;
                let n = src[(y + 1) * w + x] as u16;
                ((p + n) / 2) as u8
            }
        },
        DeinterlaceMethod::Yadif => {
            let field = if tff { y % 2 == 0 } else { y % 2 == 1 };
            if field {
                src[y * w + x]
            } else if y == 0 || y == h - 1 || x == 0 || x == w - 1 {
                if y > 0 && y < h - 1 {
                    assert((y + 1) * w + x < w * h) by (nonlinear_arith)
                        requires y + 1 < h, x < w;
                    assert((y - 1) * w + x < y * w + x) by (nonlinear_arith)
                        requires y >= 1, x < w;
                    let p = src[(y - 1) * w + x] as u16;
                    let n = src[(y + 1) * w + x] as u16;
                    ((p + n) / 2) as u8
                } else {
                    src[y * w + x]
                }
            } else {
                assert((y + 1) * w + x < w * h) by (nonlinear_arith)
                    requires y + 1 < h, x < w;
                assert((y - 1) * w + x < y * w + x) by (nonlinear_arith)
                    requires y >= 1, x < w;
                let c = src[y * w + x] as i32;
                let a = src[(y - 1) * w + x] as i32;
                let b = src[(y + 1) * w + x] as i32;
                let d1 = if a - b < 0 { b - a } else { a - b };
                let d2 = if c - a < 0 { a - c } else { c - a };
                let d3 = if c - b < 0 { b - c } else { c - b };
                if d1 < d2 && d1 < d3 {
                    ((a + b) / 2) as u8
                } else if d2 < d3 {
                    a as u8
                } else {
                    b as u8
                }
            }
        },
    }
}

/// Deinterlace a `w` by `h` plane into a new plane of rows of `w` bytes.
fn deint_plane(m: DeinterlaceMethod, tff: bool, src: &Plane, w: usize, h: usize) -> (p: Plane)
    requires
        w * rows_needed(m, tff, h as int) <= src.data@.len(),
        w * h <= usize::MAX,
    ensures
        p.stride == w,
        deinterlaced(m, tff, src.data@, p.data@, w as int, h as int),
{
    let mut p = Plane::with_capacity(w, h);
    let s = src.data.as_slice();
    let mut y: usize = 0;
    while y < h
        invariant
            y <= h,
            s@ == src.data@,
            w * rows_needed(m, tff, h as int) <= s@.len(),
            w * h <= usize::MAX,
            p.stride == w,
            p.data@.len() == w * h,
            forall|xx: int, yy: int| 0 <= xx < w && 0 <= yy < y ==>
                p.data@[yy * w + xx] as int == #[trigger] deint_sample(m, tff, s@, w as int, h as int, xx, yy),
        decreases h - y,
    {
        let mut x: usize = 0;
        while x < w
            invariant
                y < h,
                x <= w,
                s@ == src.data@,
                w * rows_needed(m, tff, h as int) <= s@.len(),
                w * h <= usize::MAX,
                p.stride == w,
                p.data@.len() == w * h,
                forall|xx: int, yy: int| 0 <= xx < w && 0 <= yy < y ==>
                    p.data@[yy * w + xx] as int == #[trigger] deint_sample(m, tff, s@, w as int, h as int, xx, yy),
                forall|xx: int| 0 <= xx < x ==>
                    p.data@[y * w + xx] as int == #[trigger] deint_sample(m, tff, s@, w as int, h as int, xx, y as int),
            decreases w - x,
        {
            let v = deint_pixel(m, tff, s, w, h, x, y);
            assert(y * w + x < w * h) by (nonlinear_arith)
                requires y < h, x < w;
            p.data.set(y * w + x, v);
            proof {
                assert forall|xx: int, yy: int| 0 <= xx < w && 0 <= yy < y implies
                    p.data@[yy * w + xx] as int == #[trigger] deint_sample(m, tff, s@, w as int, h as int, xx, yy) by {
                    assert(yy * w + xx < y * w) by (nonlinear_arith)
                        requires 0 <= yy < y, 0 <= xx < w;
                }
            }
            x += 1;
        }
        y += 1;
    }
    p
}

impl DeinterlaceFilter {
    /// A deinterlacer with the given method and field order.
    pub fn new(method: DeinterlaceMethod, tff: bool) -> (f: DeinterlaceFilter)
        ensures
            f.method() == method,
            f.tff() == tff,
            f.prev_frame() is None,
    {
        DeinterlaceFilter { method, tff, prev_frame: None }
    }

    /// The method.
    pub closed spec fn method(&self) -> DeinterlaceMethod {
        self.method
    }

    /// Whether the top field comes first.
    pub closed spec fn tff(&self) -> bool {
        self.tff
    }

    /// The last frame the edge-directed method saw.
    pub closed spec fn prev_frame(&self) -> Option<Frame> {
        self.prev_frame
    }

    /// The frame produced from a YUV 4:2:0 frame: every plane deinterlaced (chroma
    /// at half size), the timestamp kept and no duration.
    pub open spec fn deinterlaced_frame(&self, frame: &Frame, out: Frame) -> bool {
        let (w, h) = (frame.width as int, frame.height as int);
        &&& out.width == frame.width
        &&& out.height == frame.height
        &&& out.pts == frame.pts
        &&& out.duration is None
        &&& out.pixel_format == Some(PixelFormat::Yuv420p)
        &&& out.sample_format is None
        &&& out.sample_rate is None
        &&& out.samples is None
        &&& out.channels is None
        &&& out.planes@.len() == 3
        &&& out.planes@[0].stride == w
        &&& out.planes@[1].stride == w / 2
        &&& out.planes@[2].stride == w / 2
        &&& deinterlaced(self.method(), self.tff(), frame.planes@[0].data@, out.planes@[0].data@, w, h)
        &&& deinterlaced(self.method(), self.tff(), frame.planes@[1].data@, out.planes@[1].data@, w / 2, h / 2)
        &&& deinterlaced(self.method(), self.tff(), frame.planes@[2].data@, out.planes@[2].data@, w / 2, h / 2)
    }

    /// Deinterlace a YUV 4:2:0 frame; fails when it has fewer than three planes.
    fn deinterlace_yuv420p(&mut self, input: &Frame) -> (r: Result<Frame>)
        requires
            input.planes@.len() >= 3 ==> {
                let (m, t) = (old(self).method(), old(self).tff());
                &&& input.width * rows_needed(m, t, input.height as int) <= input.planes@[0].data@.len()
                &&& (input.width / 2) * rows_needed(m, t, (input.height / 2) as int) <= input.planes@[1].data@.len()
                &&& (input.width / 2) * rows_needed(m, t, (input.height / 2) as int) <= input.planes@[2].data@.len()
                &&& input.width * input.height <= usize::MAX
            },
        ensures
            input.planes@.len() < 3 <==> r is Err,
            r matches Err(e) ==> e.is_invalid(),
            r matches Ok(out) ==> old(self).deinterlaced_frame(input, out),
            final(self).method() == old(self).method(),
            final(self).tff() == old(self).tff(),
            (r is Ok && old(self).method() == DeinterlaceMethod::Yadif) ==>
                (final(self).prev_frame() matches Some(p) && same_frame(p, *input)),
            !(r is Ok && old(self).method() == DeinterlaceMethod::Yadif) ==> final(self).prev_frame() == old(self).prev_frame(),
    {
        if input.planes.len() < 3 {
            return Err(Error::invalid("deinterlace", "Invalid YUV420p frame"));
        }
        let w = input.width;
        let h = input.height;
        proof {
            assert((w / 2) * (h / 2) <= w * h) by (nonlinear_arith);
        }
        let y_plane = deint_plane(self.method, self.tff, &input.planes[0], w, h);
        let u_plane = deint_plane(self.method, self.tff, &input.planes[1], w / 2, h / 2);
        let v_plane = deint_plane(self.method, self.tff, &input.planes[2], w / 2, h / 2);
        let mut planes: Vec<Plane> = Vec::new();
        planes.push(y_plane);
        planes.push(u_plane);
        planes.push(v_plane);
        if self.method == DeinterlaceMethod::Yadif {
            self.prev_frame = Some(input.clone());
        }
        Ok(Frame {
            planes,
            pts: input.pts,
            duration: None,
            width: w,
            height: h,
            pixel_format: Some(PixelFormat::Yuv420p),
            sample_format: None,
            sample_rate: None,
            samples: None,
            channels: None,
        })
    }
}

impl Filter for DeinterlaceFilter {
    open spec fn accepts(&self, frame: &Frame) -> bool {
        frame.pixel_format == Some(PixelFormat::Yuv420p) && frame.planes@.len() >= 3 ==> {
            let (m, t) = (self.method(), self.tff());
            &&& frame.width * rows_needed(m, t, frame.height as int) <= frame.planes@[0].data@.len()
            &&& (frame.width / 2) * rows_needed(m, t, (frame.height / 2) as int) <= frame.planes@[1].data@.len()
            &&& (frame.width / 2) * rows_needed(m, t, (frame.height / 2) as int) <= frame.planes@[2].data@.len()
            &&& frame.width * frame.height <= usize::MAX
        }
    }

    /// Deinterlace a frame: YUV 4:2:0 with three planes only; anything else fails as
    /// invalid. The edge-directed method keeps a copy of the frame.
    fn filter(&mut self, frame: &Frame) -> (r: Result<Frame>)
        ensures
            (frame.pixel_format != Some(PixelFormat::Yuv420p) || frame.planes@.len() < 3) ==>
                (r matches Err(e) && e.is_invalid()),
            (frame.pixel_format == Some(PixelFormat::Yuv420p) && frame.planes@.len() >= 3) ==>
                (r matches Ok(out) && old(self).deinterlaced_frame(frame, out)),
            final(self).method() == old(self).method(),
            final(self).tff() == old(self).tff(),
            (r is Ok && old(self).method() == DeinterlaceMethod::Yadif) ==>
                (final(self).prev_frame() matches Some(p) && same_frame(p, *frame)),
            !(r is Ok && old(self).method() == DeinterlaceMethod::Yadif) ==> final(self).prev_frame() == old(self).prev_frame(),
    {
        match frame.pixel_format {
            Some(PixelFormat::Yuv420p) => self.deinterlace_yuv420p(frame),
            _ => Err(Error::invalid("deinterlace", "Unsupported pixel format (only YUV420p supported)")),
        }
    }

    /// "deinterlace".
    fn name(&self) -> (s: &str)
        ensures
            s@ == "deinterlace"@,
    {
        "deinterlace"
    }
}

/// Yadif at an interior sample `(x, y)` of a line missing from the field, with `c`
/// the sample itself, `a` the one above and `b` the one below: where `|a - b|` is the
/// smallest of the three differences the result is their average; otherwise it is
/// whichever of `a` and `b` lies closer to `c` (`a` where `|c - a| < |c - b|`, `b`
/// where `|c - b| < |c - a|`, and `b` on a tie). Either way it lies between `a` and
/// `b`. Lines of the field itself are kept.
pub proof fn lemma_yadif_interior(tff: bool, s: Seq<u8>, w: int, h: int, x: int, y: int)
    requires
        0 < x < w - 1,
        0 < y < h - 1,
    ensures ({
        let r = deint_sample(DeinterlaceMethod::Yadif, tff, s, w, h, x, y);
        let a = s[(y - 1) * w + x] as int;
        let c = s[y * w + x] as int;
        let b = s[(y + 1) * w + x] as int;
        let (lo, hi) = if a <= b { (a, b) } else { (b, a) };
        &&& field_line(tff, y) ==> r == c
        &&& !field_line(tff, y) ==> {
            &&& lo <= r <= hi
            &&& (abs_int(a - b) < abs_int(c - a) && abs_int(a - b) < abs_int(c - b)) ==> r == (a + b) / 2
            &&& !(abs_int(a - b) < abs_int(c - a) && abs_int(a - b) < abs_int(c - b)) ==> {
                &&& r == a || r == b
                &&& abs_int(c - r) <= abs_int(c - a)
                &&& abs_int(c - r) <= abs_int(c - b)
                &&& abs_int(c - a) < abs_int(c - b) ==> r == a
                &&& abs_int(c - b) <= abs_int(c - a) ==> r == b
            }
        }
    }),
{
}

/// What each method makes of the sample `(x, y)` of a `w` by `h` plane `s`, with
/// `c` the sample itself and `a`, `b` the samples above and below it: Bob keeps the
/// lines of the field and fills each missing line with the field line above (top
/// field first) or below (bottom field first, the last line staying where nothing
/// is below); Blend keeps the first and last lines and turns every other sample into
/// `(a + 2c + b) / 4`; Linear keeps the field and fills a missing line with
/// `(a + b) / 2`, or with the line next to it at the top and bottom; Yadif keeps the
/// field, fills the missing samples of the left and right columns with `(a + b) / 2`
/// and keeps the first and last lines.
pub proof fn lemma_deinterlace_methods(tff: bool, s: Seq<u8>, w: int, h: int, x: int, y: int)
    requires
        0 <= x < w,
        0 <= y < h,
    ensures ({
        let at = |yy: int| s[yy * w + x] as int;
        let sample = |m: DeinterlaceMethod| deint_sample(m, tff, s, w, h, x, y);
        &&& field_line(tff, y) ==> sample(DeinterlaceMethod::Bob) == at(y)
        &&& !field_line(tff, y) && tff ==> sample(DeinterlaceMethod::Bob) == at(y - 1)
        &&& !field_line(tff, y) && !tff && y + 1 < h ==> sample(DeinterlaceMethod::Bob) == at(y + 1)
        &&& !field_line(tff, y) && !tff && y + 1 == h ==> sample(DeinterlaceMethod::Bob) == at(y)
        &&& (y == 0 || y == h - 1) ==> sample(DeinterlaceMethod::Blend) == at(y)
        &&& 0 < y < h - 1 ==> sample(DeinterlaceMethod::Blend) == (at(y - 1) + 2 * at(y) + at(y + 1)) / 4
        &&& field_line(tff, y) ==> sample(DeinterlaceMethod::Linear) == at(y)
            && sample(DeinterlaceMethod::Yadif) == at(y)
        &&& !field_line(tff, y) && 0 < y < h - 1 ==> sample(DeinterlaceMethod::Linear) == (at(y - 1) + at(y + 1)) / 2
        &&& !field_line(tff, y) && y == 0 ==> sample(DeinterlaceMethod::Linear) == at(1)
        &&& !field_line(tff, y) && y == h - 1 && y > 0 ==> sample(DeinterlaceMethod::Linear) == at(h - 2)
        &&& !field_line(tff, y) && 0 < y < h - 1 && (x == 0 || x == w - 1) ==>
            sample(DeinterlaceMethod::Yadif) == (at(y - 1) + at(y + 1)) / 2
        &&& !field_line(tff, y) && (y == 0 || y == h - 1) ==> sample(DeinterlaceMethod::Yadif) == at(y)
    }),
{
}

} // verus!
