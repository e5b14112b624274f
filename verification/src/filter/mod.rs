//! Video frame filters: cropping, padding, rotation and flipping, deinterlacing.
use vstd::prelude::*;
use crate::error::Result;
use crate::frame::{Frame, Plane, PixelFormat};

pub mod crop;
pub mod deinterlace;
pub mod fps;
pub mod pad;
pub mod transpose;

verus! {

/// A filter that turns frames into frames.
pub trait Filter: Send {
    /// The frames that `filter` takes: those it processes without running past a
    /// buffer or overflowing.
    spec fn accepts(&self, frame: &Frame) -> bool;

    /// Process one frame.
    fn filter(&mut self, frame: &Frame) -> (r: Result<Frame>)
        requires
            old(self).accepts(frame);

    /// The filter's name.
    fn name(&self) -> &str;

    /// Emit any frames still held; by default there are none.
    fn flush(&mut self) -> (r: Result<Vec<Frame>>)
        default_ensures
            r matches Ok(frames) && frames@.len() == 0,
    {
        Ok(Vec::new())
    }
}

/// `rows` rows of `w` bytes starting at byte `x` of row `y` lie within the plane.
pub open spec fn rows_readable(p: Plane, x: int, y: int, w: int, rows: int) -> bool {
    rows == 0 || (y + rows - 1) * p.stride + x + w <= p.data@.len()
}

/// One row-major index is one position: `r1 * w + c1 == r2 * w + c2` with columns
/// below `w` means the same row and column.
pub proof fn lemma_row_col_unique(r1: int, c1: int, r2: int, c2: int, w: int)
    requires
        0 <= c1 < w,
        0 <= c2 < w,
        0 <= r1,
        0 <= r2,
        r1 * w + c1 == r2 * w + c2,
    ensures
        r1 == r2,
        c1 == c2,
{
    if r1 < r2 {
        assert(r1 * w + c1 < r2 * w + c2) by (nonlinear_arith)
            requires r1 < r2, 0 <= c1 < w, 0 <= c2;
    } else if r1 > r2 {
        assert(r2 * w + c2 < r1 * w + c1) by (nonlinear_arith)
            requires r2 < r1, 0 <= c2 < w, 0 <= c1;
    }
}

/// The `{:?}` text of an optional pixel format.
pub open spec fn format_text(f: Option<PixelFormat>) -> Seq<char> {
    match f {
        None => "None"@,
        Some(PixelFormat::Yuv420p) => "Some(Yuv420p)"@,
        Some(PixelFormat::Yuv422p) => "Some(Yuv422p)"@,
        Some(PixelFormat::Yuv444p) => "Some(Yuv444p)"@,
        Some(PixelFormat::Nv12) => "Some(Nv12)"@,
        Some(PixelFormat::Rgb24) => "Some(Rgb24)"@,
        Some(PixelFormat::Rgba) => "Some(Rgba)"@,
        Some(PixelFormat::Bgr24) => "Some(Bgr24)"@,
        Some(PixelFormat::Gray8) => "Some(Gray8)"@,
    }
}

/// The `{:?}` text of an optional pixel format, for error messages.
pub(crate) fn format_name(f: Option<PixelFormat>) -> (s: &'static str)
    ensures
        s@ == format_text(f),
{
    match f {
        None => "None",
        Some(PixelFormat::Yuv420p) => "Some(Yuv420p)",
        Some(PixelFormat::Yuv422p) => "Some(Yuv422p)",
        Some(PixelFormat::Yuv444p) => "Some(Yuv444p)",
        Some(PixelFormat::Nv12) => "Some(Nv12)",
        Some(PixelFormat::Rgb24) => "Some(Rgb24)",
        Some(PixelFormat::Rgba) => "Some(Rgba)",
        Some(PixelFormat::Bgr24) => "Some(Bgr24)",
        Some(PixelFormat::Gray8) => "Some(Gray8)",
    }
}

} // verus!
