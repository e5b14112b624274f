//! Cropping: a rectangular region of each plane.
use vstd::prelude::*;
use crate::error::{Error, Result};
use crate::frame::{Frame, Plane, PixelFormat};
use super::{Filter, rows_readable, format_name};
use super::pad::{pad_of, in_rect, PadFilter};

verus! {

/// A crop of `width` by `height` pixels at `(x, y)`.
pub struct CropFilter {
    x: usize,
    y: usize,
    width: usize,
    height: usize,
}

/// `dst` holds the `cw` by `ch` region of `src` at byte `xo` of row `yo`, rows packed.
pub open spec fn crop_of(src: Plane, dst: Plane, xo: int, yo: int, cw: int, ch: int) -> bool {
    &&& dst.stride == cw
    &&& dst.data@.len() == cw * ch
    &&& forall|r: int, c: int| 0 <= r < ch && 0 <= c < cw ==>
        dst.data@[r * cw + c] == #[trigger] src.data@[(yo + r) * src.stride + xo + c]
}

/// Cropping the region where a plane was padded in gives the plane back: for a
/// plane `src` of `sw` by `sh` placed at `(xo, yo)` in a `dw` by `dh` plane `mid`,
/// the crop of that region holds every sample of `src`, rows packed.
pub proof fn lemma_crop_of_pad(src: Plane, mid: Plane, out: Plane, sw: int, sh: int, dw: int, dh: int,
    xo: int, yo: int, fill: u8)
    requires
        0 <= xo,
        0 <= yo,
        0 <= sw,
        0 <= sh,
        xo + sw <= dw,
        yo + sh <= dh,
        pad_of(src, mid, sw, sh, dw, dh, xo, yo, fill),
        crop_of(mid, out, xo, yo, sw, sh),
    ensures
        out.stride == sw,
        out.data@.len() == sw * sh,
        forall|r: int, c: int| 0 <= r < sh && 0 <= c < sw ==>
            out.data@[r * sw + c] == #[trigger] src.data@[r * src.stride + c],
{
    assert forall|r: int, c: int| 0 <= r < sh && 0 <= c < sw implies
        out.data@[r * sw + c] == #[trigger] src.data@[r * src.stride + c] by {
        let rr = yo + r;
        let cc = xo + c;
        assert(rr * dw + cc < dw * dh) by (nonlinear_arith)
            requires rr < dh, 0 <= cc < dw, 0 <= rr;
        assert(0 <= rr * dw) by (nonlinear_arith) requires 0 <= rr, 0 <= dw;
        assert(in_rect(rr, cc, xo, yo, sw, sh));
        assert(mid.data@[rr * dw + cc] == src.data@[(rr - yo) * src.stride + cc - xo]);
        assert(out.data@[r * sw + c] == mid.data@[(yo + r) * mid.stride + xo + c]);
    }
}

/// Crop one plane; fails when the region reaches past `src_width` or `src_height`.
fn crop_plane(src: &Plane, src_width: usize, src_height: usize, x_offset: usize, y_offset: usize,
    crop_width: usize, crop_height: usize) -> (r: Result<Plane>)
    requires
        x_offset + crop_width <= usize::MAX,
        y_offset + crop_height <= usize::MAX,
        x_offset + crop_width <= src_width && y_offset + crop_height <= src_height ==>
            crop_width * crop_height <= usize::MAX
            && rows_readable(*src, x_offset as int, y_offset as int, crop_width as int, crop_height as int),
    ensures
        (x_offset + crop_width > src_width || y_offset + crop_height > src_height) <==> r is Err,
        r matches Err(e) ==> e.is_invalid(),
        r matches Ok(p) ==> crop_of(*src, p, x_offset as int, y_offset as int, crop_width as int, crop_height as int),
{
    if x_offset + crop_width > src_width || y_offset + crop_height > src_height {
        return Err(Error::invalid("crop", "Crop region exceeds source dimensions"));
    }
    let mut dst_data: Vec<u8> = Vec::with_capacity(crop_width * crop_height);
    let src_len = src.data.len();
    let mut y: usize = 0;
    while y < crop_height
        invariant
            src_len == src.data@.len(),
            y <= crop_height,
            crop_width * crop_height <= usize::MAX,
            rows_readable(*src, x_offset as int, y_offset as int, crop_width as int, crop_height as int),
            y_offset + crop_height <= usize::MAX,
            dst_data@.len() == y * crop_width,
            forall|r: int, c: int| 0 <= r < y && 0 <= c < crop_width ==>
                dst_data@[r * crop_width + c] == #[trigger] src.data@[(y_offset + r) * src.stride + x_offset + c],
        decreases crop_height - y,
    {
        assert((y_offset + y) * src.stride <= (y_offset + crop_height - 1) * src.stride) by (nonlinear_arith)
            requires y + 1 <= crop_height;
        let off = (y_offset + y) * src.stride + x_offset;
        let ghost before = dst_data@;
        dst_data.extend_from_slice(&src.data[off..off + crop_width]);
        proof {
            assert((y + 1) * crop_width == y * crop_width + crop_width) by (nonlinear_arith);
            assert forall|r: int, c: int| 0 <= r < y + 1 && 0 <= c < crop_width implies
                dst_data@[r * crop_width + c] == #[trigger] src.data@[(y_offset + r) * src.stride + x_offset + c] by {
                if r < y {
                    assert(r * crop_width + c < y * crop_width) by (nonlinear_arith)
                        requires 0 <= r < y, 0 <= c < crop_width;
                    assert(dst_data@[r * crop_width + c] == before[r * crop_width + c]);
                } else {
                    assert(dst_data@[y * crop_width + c] == src.data@[off + c]);
                }
            }
        }
        y += 1;
    }
    assert(crop_height * crop_width == crop_width * crop_height) by (nonlinear_arith);
    Ok(Plane { data: dst_data, stride: crop_width })
}

impl CropFilter {
    /// A crop of `width` by `height` pixels with its top-left corner at `(x, y)`.
    pub fn new(x: usize, y: usize, width: usize, height: usize) -> (f: CropFilter)
        ensures
            f.view() == (x, y, width, height),
    {
        CropFilter { x, y, width, height }
    }

    /// `(x, y, width, height)`.
    pub closed spec fn view(&self) -> (usize, usize, usize, usize) {
        (self.x, self.y, self.width, self.height)
    }

    /// The region lies within a frame of the given size.
    pub open spec fn fits(&self, frame: &Frame) -> bool {
        let (x, y, w, h) = self.view();
        x + w <= frame.width && y + h <= frame.height
    }

    /// The frame produced from `frame`: the region of every plane (chroma planes
    /// of 4:2:0 at half the offsets and size; packed RGB at three bytes a pixel),
    /// the timing and format kept.
    pub open spec fn cropped(&self, frame: &Frame, out: Frame) -> bool {
        let (x, y, w, h) = self.view();
        &&& out.width == w
        &&& out.height == h
        &&& out.pts == frame.pts
        &&& out.duration == frame.duration
        &&& out.pixel_format == frame.pixel_format
        &&& out.sample_format is None
        &&& out.sample_rate is None
        &&& out.samples is None
        &&& out.channels is None
        &&& match frame.pixel_format {
            Some(PixelFormat::Yuv420p) => out.planes@.len() == 3
                && crop_of(frame.planes@[0], out.planes@[0], x as int, y as int, w as int, h as int)
                && crop_of(frame.planes@[1], out.planes@[1], (x / 2) as int, (y / 2) as int, (w / 2) as int, (h / 2) as int)
                && crop_of(frame.planes@[2], out.planes@[2], (x / 2) as int, (y / 2) as int, (w / 2) as int, (h / 2) as int),
            _ => out.planes@.len() == 1
                && crop_of(frame.planes@[0], out.planes@[0], x * 3, y as int, w * 3, h as int),
        }
    }
}

impl Filter for CropFilter {
    open spec fn accepts(&self, frame: &Frame) -> bool {
        let (x, y, w, h) = self.view();
        &&& x + w <= usize::MAX
        &&& y + h <= usize::MAX
        &&& self.fits(frame) ==> match frame.pixel_format {
            Some(PixelFormat::Yuv420p) => {
                &&& frame.planes@.len() >= 3
                &&& w * h <= usize::MAX
                &&& rows_readable(frame.planes@[0], x as int, y as int, w as int, h as int)
                &&& rows_readable(frame.planes@[1], (x / 2) as int, (y / 2) as int, (w / 2) as int, (h / 2) as int)
                &&& rows_readable(frame.planes@[2], (x / 2) as int, (y / 2) as int, (w / 2) as int, (h / 2) as int)
            },
            Some(PixelFormat::Rgb24) => {
                &&& frame.planes@.len() >= 1
                &&& x * 3 + w * 3 <= usize::MAX
                &&& frame.width * 3 <= usize::MAX
                &&& w * 3 * h <= usize::MAX
                &&& rows_readable(frame.planes@[0], x * 3, y as int, w * 3, h as int)
            },
            _ => true,
        }
    }

    /// Crop a frame. Fails as invalid when the region does not fit the frame, and
    /// as unsupported for formats other than YUV 4:2:0 and RGB24; packed RGB rows are
    /// cropped at three bytes a pixel.
    fn filter(&mut self, frame: &Frame) -> (r: Result<Frame>)
        ensures
            !old(self).fits(frame) ==> (r matches Err(e) && e.is_invalid()),
            old(self).fits(frame) ==> match frame.pixel_format {
                Some(PixelFormat::Yuv420p) => r matches Ok(out) && old(self).cropped(frame, out),
                Some(PixelFormat::Rgb24) => r matches Ok(out) && old(self).cropped(frame, out),
                _ => r matches Err(e) && e is Unsupported,
            },
            *final(self) == *old(self),
    {
        if frame.width < self.x + self.width || frame.height < self.y + self.height {
            return Err(Error::invalid("crop", "Crop region exceeds frame dimensions"));
        }
        match frame.pixel_format {
            Some(PixelFormat::Yuv420p) => {
                let y_plane = crop_plane(&frame.planes[0], frame.width, frame.height, self.x, self.y, self.width,
                    self.height)?;
                proof {
                    assert((self.width / 2) * (self.height / 2) <= self.width * self.height) by (nonlinear_arith);
                }
                let u_plane = crop_plane(&frame.planes[1], frame.width / 2, frame.height / 2, self.x / 2, self.y / 2,
                    self.width / 2, self.height / 2)?;
                let v_plane = crop_plane(&frame.planes[2], frame.width / 2, frame.height / 2, self.x / 2, self.y / 2,
                    self.width / 2, self.height / 2)?;
                let mut planes: Vec<Plane> = Vec::new();
                planes.push(y_plane);
                planes.push(u_plane);
                planes.push(v_plane);
                Ok(Frame {
                    planes,
                    pts: frame.pts,
                    duration: frame.duration,
                    width: self.width,
                    height: self.height,
                    pixel_format: frame.pixel_format,
                    sample_format: None,
                    sample_rate: None,
                    samples: None,
                    channels: None,
                })
            },
            Some(PixelFormat::Rgb24) => {
                let rgb_plane = crop_plane(&frame.planes[0], frame.width * 3, frame.height, self.x * 3, self.y,
                    self.width * 3, self.height)?;
                let mut planes: Vec<Plane> = Vec::new();
                planes.push(rgb_plane);
                Ok(Frame {
                    planes,
                    pts: frame.pts,
                    duration: frame.duration,
                    width: self.width,
                    height: self.height,
                    pixel_format: frame.pixel_format,
                    sample_format: None,
                    sample_rate: None,
                    samples: None,
                    channels: None,
                })
            },
            _ => Err(Error::unsupported("crop", format_name(frame.pixel_format))),
        }
    }

    /// "crop".
    fn name(&self) -> (s: &str)
        ensures
            s@ == "crop"@,
    {
        "crop"
    }
}


/// A plane whose `sw` by `sh` samples, rows packed, agree with those of a plane of
/// the same packed layout holds the same bytes.
proof fn lemma_packed_planes_equal(out: Plane, src: Plane, sw: int, sh: int)
    requires
        sw >= 0,
        sh >= 0,
        out.data@.len() == sw * sh,
        src.data@.len() == sw * sh,
        src.stride == sw,
        forall|r: int, c: int| 0 <= r < sh && 0 <= c < sw ==>
            out.data@[r * sw + c] == #[trigger] src.data@[r * src.stride + c],
    ensures
        out.data@ == src.data@,
{
    assert forall|i: int| 0 <= i < sw * sh implies out.data@[i] == src.data@[i] by {
        assert(sw > 0) by (nonlinear_arith) requires 0 <= i < sw * sh, sh >= 0;
        let r = i / sw;
        let c = i % sw;
        vstd::arithmetic::div_mod::lemma_fundamental_div_mod(i, sw);
        assert(0 <= c < sw);
        assert(0 <= r < sh) by (nonlinear_arith) requires i == sw * r + c, 0 <= c < sw, 0 <= i < sw * sh, sw > 0;
        assert(i == r * sw + c) by (nonlinear_arith) requires i == sw * r + c;
        assert(out.data@[r * sw + c] == src.data@[r * src.stride + c]);
    }
    assert(out.data@ =~= src.data@);
}

/// Cropping a padded YUV 4:2:0 frame to the region where it was placed gives the
/// frame back: for a frame with packed planes, padded at `(x, y)` and then cropped
/// at `(x, y)` to its own size, the result has its size, timestamp, and every
/// plane with its bytes and stride.
pub proof fn lemma_crop_undoes_pad(pad: PadFilter, crop: CropFilter, frame: Frame, mid: Frame, back: Frame)
    requires
        frame.pixel_format == Some(PixelFormat::Yuv420p),
        pad.fits(&frame),
        crop.view() == (pad.view().2, pad.view().3, frame.width, frame.height),
        frame.planes@.len() >= 3,
        frame.planes@[0].stride == frame.width,
        frame.planes@[0].data@.len() == frame.width * frame.height,
        frame.planes@[1].stride == frame.width / 2,
        frame.planes@[1].data@.len() == (frame.width / 2) * (frame.height / 2),
        frame.planes@[2].stride == frame.width / 2,
        frame.planes@[2].data@.len() == (frame.width / 2) * (frame.height / 2),
        pad.padded_frame(&frame, mid),
        crop.cropped(&mid, back),
    ensures
        back.width == frame.width,
        back.height == frame.height,
        back.pts == frame.pts,
        back.planes@.len() == 3,
        forall|k: int| 0 <= k < 3 ==> (#[trigger] back.planes@[k]).data@ == frame.planes@[k].data@
            && back.planes@[k].stride == frame.planes@[k].stride,
{
    let (pw, ph, x, y, color) = pad.view();
    let w = frame.width as int;
    let h = frame.height as int;
    lemma_crop_of_pad(frame.planes@[0], mid.planes@[0], back.planes@[0], w, h, pw as int, ph as int,
        x as int, y as int, color[0]);
    lemma_packed_planes_equal(back.planes@[0], frame.planes@[0], w, h);
    assert((x / 2) + (frame.width / 2) <= pw / 2 && (y / 2) + (frame.height / 2) <= ph / 2) by (nonlinear_arith)
        requires x + frame.width <= pw, y + frame.height <= ph;
    lemma_crop_of_pad(frame.planes@[1], mid.planes@[1], back.planes@[1], w / 2, h / 2, (pw / 2) as int,
        (ph / 2) as int, (x / 2) as int, (y / 2) as int, color[1]);
    lemma_packed_planes_equal(back.planes@[1], frame.planes@[1], w / 2, h / 2);
    lemma_crop_of_pad(frame.planes@[2], mid.planes@[2], back.planes@[2], w / 2, h / 2, (pw / 2) as int,
        (ph / 2) as int, (x / 2) as int, (y / 2) as int, color[2]);
    lemma_packed_planes_equal(back.planes@[2], frame.planes@[2], w / 2, h / 2);
}

} // verus!
