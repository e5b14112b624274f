//! The storage of a frame pool: frames of one size and format kept for reuse, up
//! to a fixed number.
use vstd::prelude::*;
use crate::frame::{Frame, PixelFormat, video_plane_layout, zero_plane};

verus! {

/// A frame has the pool's size and pixel format.
pub open spec fn fits(f: Frame, width: usize, height: usize, pixel_format: PixelFormat) -> bool {
    f.width == width && f.height == height && f.pixel_format == Some(pixel_format)
}

/// Frames kept for reuse, all of one size and format, at most `max_size` of them.
pub struct FramePoolStore {
    pixel_format: PixelFormat,
    width: usize,
    height: usize,
    frames: Vec<Frame>,
    max_size: usize,
}

impl FramePoolStore {
    /// The frames kept, in the order they were returned.
    pub closed spec fn frames(&self) -> Seq<Frame> {
        self.frames@
    }

    /// Width of the pool's frames.
    pub closed spec fn spec_width(&self) -> usize {
        self.width
    }

    /// Height of the pool's frames.
    pub closed spec fn spec_height(&self) -> usize {
        self.height
    }

    /// Pixel format of the pool's frames.
    pub closed spec fn spec_format(&self) -> PixelFormat {
        self.pixel_format
    }

    /// Most frames kept.
    pub closed spec fn spec_capacity(&self) -> usize {
        self.max_size
    }

    /// Every frame kept fits the pool, there are at most `max_size` of them, and a
    /// frame of the pool's size can be allocated.
    pub open spec fn wf(&self) -> bool {
        &&& self.frames().len() <= self.spec_capacity()
        &&& forall|i: int| 0 <= i < self.frames().len() ==>
            #[trigger] fits(self.frames()[i], self.spec_width(), self.spec_height(), self.spec_format())
        &&& self.spec_width() * self.spec_height() * 4 <= usize::MAX
        &&& self.spec_width() * 4 <= usize::MAX
    }

    /// An empty pool for frames of the given size and format.
    pub fn new(pixel_format: PixelFormat, width: usize, height: usize, max_size: usize) -> (p: FramePoolStore)
        requires
            width * height * 4 <= usize::MAX,
            width * 4 <= usize::MAX,
        ensures
            p.wf(),
            p.frames().len() == 0,
            p.spec_width() == width,
            p.spec_height() == height,
            p.spec_format() == pixel_format,
            p.spec_capacity() == max_size,
    {
        FramePoolStore { pixel_format, width, height, frames: Vec::new(), max_size }
    }

    /// A frame for use: the last one kept, with its timestamp and duration cleared,
    /// or a new zero-filled frame of the pool's size and format.
    pub fn get(&mut self) -> (f: Frame)
        requires
            old(self).wf(),
        ensures
            final(self).wf(),
            fits(f, old(self).spec_width(), old(self).spec_height(), old(self).spec_format()),
            f.pts is None,
            f.duration is None,
            final(self).spec_width() == old(self).spec_width(),
            final(self).spec_height() == old(self).spec_height(),
            final(self).spec_format() == old(self).spec_format(),
            final(self).spec_capacity() == old(self).spec_capacity(),
            old(self).frames().len() > 0 ==> {
                let last = old(self).frames().last();
                &&& final(self).frames() == old(self).frames().drop_last()
                &&& f.planes@ == last.planes@
                &&& f.sample_format == last.sample_format
                &&& f.sample_rate == last.sample_rate
                &&& f.samples == last.samples
                &&& f.channels == last.channels
            },
            old(self).frames().len() == 0 ==> final(self).frames().len() == 0
                && f.planes@.len() == video_plane_layout(f.width as nat, f.height as nat, old(self).spec_format()).len()
                && forall|i: int| 0 <= i < f.planes@.len() ==> #[trigger] zero_plane(f.planes@[i],
                    video_plane_layout(f.width as nat, f.height as nat, old(self).spec_format())[i].0,
                    video_plane_layout(f.width as nat, f.height as nat, old(self).spec_format())[i].1),
    {
        match self.frames.pop() {
            Some(mut frame) => {
                assert(fits(frame, self.width, self.height, self.pixel_format));
                frame.pts = None;
                frame.duration = None;
                frame
            },
            None => Frame::new_video(self.width, self.height, self.pixel_format),
        }
    }

    /// Return a frame: it is kept when it fits the pool and the pool is not full,
    /// else dropped.
    pub fn put(&mut self, frame: Frame)
        requires
            old(self).wf(),
        ensures
            final(self).wf(),
            final(self).spec_width() == old(self).spec_width(),
            final(self).spec_height() == old(self).spec_height(),
            final(self).spec_format() == old(self).spec_format(),
            final(self).spec_capacity() == old(self).spec_capacity(),
            final(self).frames() == (if fits(frame, old(self).spec_width(), old(self).spec_height(), old(self).spec_format())
                && old(self).frames().len() < old(self).spec_capacity() {
                old(self).frames().push(frame)
            } else {
                old(self).frames()
            }),
    {
        if frame.width != self.width || frame.height != self.height || !format_is(frame.pixel_format, self.pixel_format) {
            return;
        }
        if self.frames.len() < self.max_size {
            self.frames.push(frame);
        }
    }

    /// Number of frames kept.
    pub fn len(&self) -> (n: usize)
        ensures
            n == self.frames().len(),
    {
        self.frames.len()
    }

    /// Whether no frame is kept.
    pub fn is_empty(&self) -> (b: bool)
        ensures
            b == (self.frames().len() == 0),
    {
        self.frames.len() == 0
    }

    /// Drop every frame kept.
    pub fn clear(&mut self)
        requires
            old(self).wf(),
        ensures
            final(self).wf(),
            final(self).frames().len() == 0,
            final(self).spec_width() == old(self).spec_width(),
            final(self).spec_height() == old(self).spec_height(),
            final(self).spec_format() == old(self).spec_format(),
            final(self).spec_capacity() == old(self).spec_capacity(),
    {
        self.frames.clear();
    }

    /// Most frames kept.
    pub fn capacity(&self) -> (n: usize)
        ensures
            n == self.spec_capacity(),
    {
        self.max_size
    }
}

/// Whether a frame's format is the pool's format.
fn format_is(f: Option<PixelFormat>, p: PixelFormat) -> (b: bool)
    ensures
        b == (f == Some(p)),
{
    match f {
        Some(x) => x == p,
        None => false,
    }
}

/// Getting a frame from a pool and returning it leaves the pool as it was.
pub proof fn lemma_get_put(p: FramePoolStore, q: FramePoolStore, r: FramePoolStore, f: Frame)
    requires
        p.wf(),
        p.frames().len() > 0,
        q.frames() == p.frames().drop_last(),
        q.spec_width() == p.spec_width() && q.spec_height() == p.spec_height()
            && q.spec_format() == p.spec_format() && q.spec_capacity() == p.spec_capacity(),
        fits(f, p.spec_width(), p.spec_height(), p.spec_format()),
        r.frames() == (if fits(f, q.spec_width(), q.spec_height(), q.spec_format())
            && q.frames().len() < q.spec_capacity() { q.frames().push(f) } else { q.frames() }),
    ensures
        r.frames().len() == p.frames().len(),
        r.frames().drop_last() == p.frames().drop_last(),
{
    assert(r.frames() == q.frames().push(f));
    assert(r.frames().drop_last() =~= q.frames());
}

} // verus!
