//! Padding: each frame placed at an offset in a larger frame of a fill color.
use vstd::prelude::*;
use crate::error::{Error, Result};
use crate::frame::{Frame, Plane, PixelFormat};
use super::{Filter, rows_readable, format_name, lemma_row_col_unique};

verus! {

/// A pad to `width` by `height` pixels with the input at `(x, y)` and the rest in
/// `color` (Y, U, V or R, G, B).
pub struct PadFilter {
    width: usize,
    height: usize,
    x: usize,
    y: usize,
    color: [u8; 3],
}

/// Row `r`, byte `c` of the padded area falls in the copied rectangle of
/// `rows` rows of `row_bytes` bytes at byte `xo` of row `yo`.
pub open spec fn in_rect(r: int, c: int, xo: int, yo: int, row_bytes: int, rows: int) -> bool {
    yo <= r < yo + rows && xo <= c < xo + row_bytes
}

/// `dst`, with rows of `ds` bytes, is the background `bg` with the rectangle of
/// `rows` rows of `row_bytes` bytes from `src` placed at byte `xo` of row `yo`.
pub open spec fn padded(dst: Seq<u8>, bg: Seq<u8>, ds: int, src: Plane, xo: int, yo: int, row_bytes: int, rows: int) -> bool {
    &&& dst.len() == bg.len()
    &&& forall|r: int, c: int| 0 <= r && 0 <= c < ds && r * ds + c < dst.len() ==>
        #[trigger] dst[r * ds + c] == (if in_rect(r, c, xo, yo, row_bytes, rows) {
            src.data@[(r - yo) * src.stride + c - xo]
        } else {
            bg[r * ds + c]
        })
}

/// The copy has reached row `y` and, within it, byte `k`.
spec fn copied_upto(r: int, c: int, xo: int, yo: int, row_bytes: int, y: int, k: int) -> bool {
    in_rect(r, c, xo, yo, row_bytes, y + 1) && (r < yo + y || c < xo + k)
}

/// Copy `rows` rows of `row_bytes` bytes of `src` into `dst`, whose rows are `ds`
/// bytes, at byte `xo` of row `yo`.
fn copy_rows_into(dst: &mut Vec<u8>, ds: usize, src: &Plane, row_bytes: usize, rows: usize, xo: usize, yo: usize)
    requires
        xo + row_bytes <= ds,
        yo + rows <= usize::MAX,
        (yo + rows) * ds <= old(dst)@.len(),
        rows_readable(*src, 0, 0, row_bytes as int, rows as int),
    ensures
        padded(final(dst)@, old(dst)@, ds as int, *src, xo as int, yo as int, row_bytes as int, rows as int),
{
    let ghost bg = dst@;
    let src_len = src.data.len();
    let dst_len = dst.len();
    let mut y: usize = 0;
    while y < rows
        invariant
            y <= rows,
            yo + rows <= usize::MAX,
            src_len == src.data@.len(),
            dst_len == dst@.len(),
            xo + row_bytes <= ds,
            (yo + rows) * ds <= bg.len(),
            rows_readable(*src, 0, 0, row_bytes as int, rows as int),
            bg == old(dst)@,
            padded(dst@, bg, ds as int, *src, xo as int, yo as int, row_bytes as int, y as int),
        decreases rows - y,
    {
        assert((yo + y) * ds + ds <= (yo + rows) * ds) by (nonlinear_arith)
            requires y + 1 <= rows;
        assert(y * src.stride <= (rows - 1) * src.stride) by (nonlinear_arith)
            requires y + 1 <= rows;
        let drow = (yo + y) * ds + xo;
        let srow = y * src.stride;
        let mut k: usize = 0;
        while k < row_bytes
            invariant
                y < rows,
                k <= row_bytes,
                src_len == src.data@.len(),
                dst_len == dst@.len(),
                xo + row_bytes <= ds,
                (yo + y) * ds + ds <= bg.len(),
                drow == (yo + y) * ds + xo,
                srow == y * src.stride,
                srow + row_bytes <= src.data@.len(),
                bg == old(dst)@,
                dst@.len() == bg.len(),
                forall|r: int, c: int| 0 <= r && 0 <= c < ds && r * ds + c < dst@.len() ==>
                    #[trigger] dst@[r * ds + c] == (if copied_upto(r, c, xo as int, yo as int, row_bytes as int, y as int, k as int) {
                        src.data@[(r - yo) * src.stride + c - xo]
                    } else {
                        bg[r * ds + c]
                    }),
            decreases row_bytes - k,
        {
            let v = src.data[srow + k];
            dst.set(drow + k, v);
            proof {
                assert forall|r: int, c: int| 0 <= r && 0 <= c < ds && r * ds + c < dst@.len() implies
                    #[trigger] dst@[r * ds + c] == (if copied_upto(r, c, xo as int, yo as int, row_bytes as int, y as int, k + 1) {
                        src.data@[(r - yo) * src.stride + c - xo]
                    } else {
                        bg[r * ds + c]
                    }) by {
                    if r * ds + c == drow + k {
                        lemma_row_col_unique(r, c, (yo + y) as int, (xo + k) as int, ds as int);
                    }
                }
            }
            k += 1;
        }
        proof {
            assert forall|r: int, c: int| 0 <= r && 0 <= c < ds && r * ds + c < dst@.len() implies
                #[trigger] dst@[r * ds + c] == (if in_rect(r, c, xo as int, yo as int, row_bytes as int, y + 1) {
                    src.data@[(r - yo) * src.stride + c - xo]
                } else {
                    bg[r * ds + c]
                }) by {
                assert(copied_upto(r, c, xo as int, yo as int, row_bytes as int, y as int, row_bytes as int)
                    == in_rect(r, c, xo as int, yo as int, row_bytes as int, y + 1));
            }
        }
        y += 1;
    }
}

/// `dst` is the plane `src` of `sw` by `sh` placed at `(xo, yo)` in a `dw` by `dh`
/// plane of `fill`.
pub open spec fn pad_of(src: Plane, dst: Plane, sw: int, sh: int, dw: int, dh: int, xo: int, yo: int, fill: u8) -> bool {
    &&& dst.stride == dw
    &&& padded(dst.data@, Seq::new((dw * dh) as nat, |i: int| fill), dw, src, xo, yo, sw, sh)
}

/// Pad one plane; fails when the source does not fit at the offset.
fn pad_plane(src: &Plane, src_width: usize, src_height: usize, dst_width: usize, dst_height: usize,
    x_offset: usize, y_offset: usize, fill_value: u8) -> (r: Result<Plane>)
    requires
        x_offset + src_width <= usize::MAX,
        y_offset + src_height <= usize::MAX,
        x_offset + src_width <= dst_width && y_offset + src_height <= dst_height ==>
            dst_width * dst_height <= usize::MAX
            && rows_readable(*src, 0, 0, src_width as int, src_height as int),
    ensures
        (x_offset + src_width > dst_width || y_offset + src_height > dst_height) <==> r is Err,
        r matches Err(e) ==> e.is_invalid(),
        r matches Ok(p) ==> pad_of(*src, p, src_width as int, src_height as int, dst_width as int,
            dst_height as int, x_offset as int, y_offset as int, fill_value),
{
    if x_offset + src_width > dst_width || y_offset + src_height > dst_height {
        return Err(Error::invalid("pad", "Input frame doesn't fit in padded dimensions"));
    }
    let mut dst_data = vec![fill_value; dst_width * dst_height];
    proof {
        assert(dst_data@ =~= Seq::new((dst_width * dst_height) as nat, |i: int| fill_value));
        assert((y_offset + src_height) * dst_width <= dst_height * dst_width) by (nonlinear_arith)
            requires y_offset + src_height <= dst_height;
        assert(dst_height * dst_width == dst_width * dst_height) by (nonlinear_arith);
    }
    copy_rows_into(&mut dst_data, dst_width, src, src_width, src_height, x_offset, y_offset);
    Ok(Plane { data: dst_data, stride: dst_width })
}

/// The packed RGB background: `color[i % 3]` at byte `i`.
pub open spec fn rgb_fill(n: int, color: Seq<u8>) -> Seq<u8> {
    Seq::new(n as nat, |i: int| color[i % 3])
}

/// `width * height` pixels of `color`.
fn rgb_background(width: usize, height: usize, color: &[u8; 3]) -> (r: Vec<u8>)
    requires
        width * height * 3 <= usize::MAX,
    ensures
        r@ == rgb_fill(width * height * 3, color@),
{
    let mut data: Vec<u8> = Vec::new();
    let mut h: usize = 0;
    while h < height
        invariant
            h <= height,
            width * height * 3 <= usize::MAX,
            data@.len() == h * width * 3,
            forall|i: int| 0 <= i < data@.len() ==> #[trigger] data@[i] == color@[i % 3],
        decreases height - h,
    {
        assert((h + 1) * width * 3 <= width * height * 3) by (nonlinear_arith)
            requires h + 1 <= height;
        let mut w: usize = 0;
        while w < width
            invariant
                h < height,
                w <= width,
                (h + 1) * width * 3 <= usize::MAX,
                data@.len() == h * width * 3 + w * 3,
                forall|i: int| 0 <= i < data@.len() ==> #[trigger] data@[i] == color@[i % 3],
            decreases width - w,
        {
            assert(h * width * 3 + w * 3 + 3 <= (h + 1) * width * 3) by (nonlinear_arith)
                requires w + 1 <= width;
            data.push(color[0]);
            data.push(color[1]);
            data.push(color[2]);
            w += 1;
        }
        assert(h * width * 3 + width * 3 == (h + 1) * width * 3) by (nonlinear_arith);
        h += 1;
    }
    assert(height * width * 3 == width * height * 3) by (nonlinear_arith);
    assert(data@ =~= rgb_fill(width * height * 3, color@));
    data
}

impl PadFilter {
    /// A pad to `width` by `height` with the input's top-left corner at `(x, y)`.
    pub fn new(width: usize, height: usize, x: usize, y: usize, color: [u8; 3]) -> (f: PadFilter)
        ensures
            f.view() == (width, height, x, y, color@),
    {
        PadFilter { width, height, x, y, color }
    }

    /// `(width, height, x, y, color)`.
    pub closed spec fn view(&self) -> (usize, usize, usize, usize, Seq<u8>) {
        (self.width, self.height, self.x, self.y, self.color@)
    }

    /// The frame fits at the offset.
    pub open spec fn fits(&self, frame: &Frame) -> bool {
        let (w, h, x, y, c) = self.view();
        x + frame.width <= w && y + frame.height <= h
    }

    /// The frame produced from `frame`: every plane placed at the offset in a plane
    /// of the output size (chroma of 4:2:0 at half offsets and sizes, each plane in
    /// its component of the color; packed RGB at three bytes a pixel).
    pub open spec fn padded_frame(&self, frame: &Frame, out: Frame) -> bool {
        let (w, h, x, y, c) = self.view();
        &&& out.width == w
        &&& out.height == h
        &&& out.pts == frame.pts
        &&& out.duration == frame.duration
        &&& out.pixel_format == frame.pixel_format
        &&& out.sample_format is None
        &&& out.sample_rate is None
        &&& out.samples is None
        &&& out.channels is None
        &&& match frame.pixel_format {
            Some(PixelFormat::Yuv420p) => out.planes@.len() == 3
                && pad_of(frame.planes@[0], out.planes@[0], frame.width as int, frame.height as int, w as int, h as int,
                    x as int, y as int, c[0])
                && pad_of(frame.planes@[1], out.planes@[1], (frame.width / 2) as int, (frame.height / 2) as int,
                    (w / 2) as int, (h / 2) as int, (x / 2) as int, (y / 2) as int, c[1])
                && pad_of(frame.planes@[2], out.planes@[2], (frame.width / 2) as int, (frame.height / 2) as int,
                    (w / 2) as int, (h / 2) as int, (x / 2) as int, (y / 2) as int, c[2]),
            _ => out.planes@.len() == 1
                && out.planes@[0].stride == w * 3
                && padded(out.planes@[0].data@, rgb_fill(w * h * 3, c), w * 3, frame.planes@[0],
                    x * 3, y as int, frame.width * 3, frame.height as int),
        }
    }
}

impl Filter for PadFilter {
    open spec fn accepts(&self, frame: &Frame) -> bool {
        let (w, h, x, y, c) = self.view();
        &&& x + frame.width <= usize::MAX
        &&& y + frame.height <= usize::MAX
        &&& self.fits(frame) ==> match frame.pixel_format {
            Some(PixelFormat::Yuv420p) => {
                &&& frame.planes@.len() >= 3
                &&& w * h <= usize::MAX
                &&& rows_readable(frame.planes@[0], 0, 0, frame.width as int, frame.height as int)
                &&& rows_readable(frame.planes@[1], 0, 0, (frame.width / 2) as int, (frame.height / 2) as int)
                &&& rows_readable(frame.planes@[2], 0, 0, (frame.width / 2) as int, (frame.height / 2) as int)
            },
            Some(PixelFormat::Rgb24) => {
                &&& frame.planes@.len() >= 1
                &&& w * h * 3 <= usize::MAX
                &&& w * 3 <= usize::MAX
                &&& rows_readable(frame.planes@[0], 0, 0, frame.width * 3, frame.height as int)
            },
            _ => true,
        }
    }

    /// Pad a frame. Fails as invalid when the frame does not fit at the offset, and
    /// as unsupported for formats other than YUV 4:2:0 and RGB24.
    fn filter(&mut self, frame: &Frame) -> (r: Result<Frame>)
        ensures
            !old(self).fits(frame) ==> (r matches Err(e) && e.is_invalid()),
            old(self).fits(frame) ==> match frame.pixel_format {
                Some(PixelFormat::Yuv420p) | Some(PixelFormat::Rgb24) =>
                    r matches Ok(out) && old(self).padded_frame(frame, out),
                _ => r matches Err(e) && e is Unsupported,
            },
            *final(self) == *old(self),
    {
        if self.x + frame.width > self.width || self.y + frame.height > self.height {
            return Err(Error::invalid("pad", "Frame doesn't fit in padded dimensions"));
        }
        match frame.pixel_format {
            Some(PixelFormat::Yuv420p) => {
                proof {
                    assert((self.width / 2) * (self.height / 2) <= self.width * self.height) by (nonlinear_arith);
                }
                let y_plane = pad_plane(&frame.planes[0], frame.width, frame.height, self.width, self.height, self.x,
                    self.y, self.color[0])?;
                let u_plane = pad_plane(&frame.planes[1], frame.width / 2, frame.height / 2, self.width / 2,
                    self.height / 2, self.x / 2, self.y / 2, self.color[1])?;
                let v_plane = pad_plane(&frame.planes[2], frame.width / 2, frame.height / 2, self.width / 2,
                    self.height / 2, self.x / 2, self.y / 2, self.color[2])?;
                let mut planes: Vec<Plane> = Vec::new();
                planes.push(y_plane);
                planes.push(u_plane);
                planes.push(v_plane);
                Ok(Frame {
                    planes,
                    pts: frame.pts,
                    duration: frame.duration,
                    width: self.width,
                    height: self.height,
                    pixel_format: frame.pixel_format,
                    sample_format: None,
                    sample_rate: None,
                    samples: None,
                    channels: None,
                })
            },
            Some(PixelFormat::Rgb24) => {
                let mut dst_data = rgb_background(self.width, self.height, &self.color);
                proof {
                    assert((self.y + frame.height) * (self.width * 3) <= self.width * self.height * 3) by (nonlinear_arith)
                        requires self.y + frame.height <= self.height;
                    assert(self.x * 3 + frame.width * 3 <= self.width * 3);
                }
                copy_rows_into(&mut dst_data, self.width * 3, &frame.planes[0], frame.width * 3, frame.height,
                    self.x * 3, self.y);
                let mut planes: Vec<Plane> = Vec::new();
                planes.push(Plane { data: dst_data, stride: self.width * 3 });
                Ok(Frame {
                    planes,
                    pts: frame.pts,
                    duration: frame.duration,
                    width: self.width,
                    height: self.height,
                    pixel_format: frame.pixel_format,
                    sample_format: None,
                    sample_rate: None,
                    samples: None,
                    channels: None,
                })
            },
            _ => Err(Error::unsupported("pad", format_name(frame.pixel_format))),
        }
    }

    /// "pad".
    fn name(&self) -> (s: &str)
        ensures
            s@ == "pad"@,
    {
        "pad"
    }
}

} // verus!
