//! Decoded frames: planes of pixels or samples with their format.
use vstd::prelude::*;
use crate::time::Pts;

verus! {

/// Pixel format of a video frame.
#[derive(Debug, Clone, Copy, PartialEq, Eq, Structural)]
pub enum PixelFormat {
    Yuv420p,
    Yuv422p,
    Yuv444p,
    Nv12,
    Rgb24,
    Rgba,
    Bgr24,
    Gray8,
}

/// Number of planes of a pixel format.
pub open spec fn spec_plane_count(f: PixelFormat) -> nat {
    match f {
        PixelFormat::Yuv420p | PixelFormat::Yuv422p | PixelFormat::Yuv444p => 3,
        PixelFormat::Nv12 => 2,
        _ => 1,
    }
}

impl PixelFormat {
    /// Number of planes of this format.
    pub fn plane_count(&self) -> (n: usize)
        ensures
            n == spec_plane_count(*self),
    {
        match self {
            PixelFormat::Yuv420p | PixelFormat::Yuv422p | PixelFormat::Yuv444p => 3,
            PixelFormat::Nv12 => 2,
            PixelFormat::Rgb24 | PixelFormat::Rgba | PixelFormat::Bgr24 | PixelFormat::Gray8 => 1,
        }
    }

    /// Bytes per pixel of a packed format (1 for planar formats).
    pub fn bytes_per_pixel(&self) -> (n: usize)
        ensures
            n == (match *self {
                PixelFormat::Rgb24 | PixelFormat::Bgr24 => 3usize,
                PixelFormat::Rgba => 4,
                _ => 1,
            }),
    {
        match self {
            PixelFormat::Rgb24 | PixelFormat::Bgr24 => 3,
            PixelFormat::Rgba => 4,
            PixelFormat::Gray8 => 1,
            _ => 1,
        }
    }
}

/// Sample format of an audio frame.
#[derive(Debug, Clone, Copy, PartialEq, Eq, Structural)]
pub enum SampleFormat {
    U8,
    S16,
    S32,
    F32,
    F64,
    U8P,
    S16P,
    S32P,
    F32P,
    F64P,
}

/// Bytes per sample of a sample format.
pub open spec fn spec_bytes_per_sample(f: SampleFormat) -> nat {
    match f {
        SampleFormat::U8 | SampleFormat::U8P => 1,
        SampleFormat::S16 | SampleFormat::S16P => 2,
        SampleFormat::S32 | SampleFormat::S32P | SampleFormat::F32 | SampleFormat::F32P => 4,
        SampleFormat::F64 | SampleFormat::F64P => 8,
    }
}

/// Whether a sample format stores one plane per channel.
pub open spec fn spec_is_planar(f: SampleFormat) -> bool {
    matches!(f, SampleFormat::U8P | SampleFormat::S16P | SampleFormat::S32P | SampleFormat::F32P | SampleFormat::F64P)
}

impl SampleFormat {
    pub fn bytes_per_sample(&self) -> (n: usize)
        ensures
            n == spec_bytes_per_sample(*self),
    {
        match self {
            SampleFormat::U8 | SampleFormat::U8P => 1,
            SampleFormat::S16 | SampleFormat::S16P => 2,
            SampleFormat::S32 | SampleFormat::S32P | SampleFormat::F32 | SampleFormat::F32P => 4,
            SampleFormat::F64 | SampleFormat::F64P => 8,
        }
    }

    pub fn is_planar(&self) -> (b: bool)
        ensures
            b == spec_is_planar(*self),
    {
        match self {
            SampleFormat::U8P | SampleFormat::S16P | SampleFormat::S32P | SampleFormat::F32P | SampleFormat::F64P => true,
            _ => false,
        }
    }
}

/// One plane of pixel or sample bytes with its row stride.
#[derive(Debug)]
pub struct Plane {
    pub data: Vec<u8>,
    pub stride: usize,
}

impl Clone for Plane {
    fn clone(&self) -> (p: Self)
        ensures
            p.data@ == self.data@,
            p.stride == self.stride,
    {
        Plane { data: self.data.clone(), stride: self.stride }
    }
}

impl Plane {
    pub fn new(data: Vec<u8>, stride: usize) -> (p: Plane)
        ensures
            p.data@ == data@,
            p.stride == stride,
    {
        Plane { data, stride }
    }

    /// A zero-filled plane of `height` rows of `stride` bytes.
    pub fn with_capacity(stride: usize, height: usize) -> (p: Plane)
        requires
            stride * height <= usize::MAX,
        ensures
            p.stride == stride,
            p.data@ == Seq::new((stride * height) as nat, |i: int| 0u8),
    {
        let v = vec![0u8; stride * height];
        proof {
            assert(v@ =~= Seq::new((stride * height) as nat, |i: int| 0u8));
        }
        Plane { data: v, stride }
    }
}

/// A decoded video or audio frame.
#[derive(Debug)]
pub struct Frame {
    pub planes: Vec<Plane>,
    pub pts: Option<Pts>,
    pub duration: Option<i64>,
    pub width: usize,
    pub height: usize,
    pub pixel_format: Option<PixelFormat>,
    pub sample_format: Option<SampleFormat>,
    pub sample_rate: Option<u32>,
    pub samples: Option<usize>,
    pub channels: Option<u32>,
}

/// Two planes hold the same bytes with the same stride.
pub open spec fn same_plane(a: Plane, b: Plane) -> bool {
    a.data@ == b.data@ && a.stride == b.stride
}

/// Two frames agree in every plane and every field.
pub open spec fn same_frame(a: Frame, b: Frame) -> bool {
    &&& a.planes@.len() == b.planes@.len()
    &&& forall|i: int| 0 <= i < a.planes@.len() ==> #[trigger] same_plane(a.planes@[i], b.planes@[i])
    &&& a.pts == b.pts
    &&& a.duration == b.duration
    &&& a.width == b.width
    &&& a.height == b.height
    &&& a.pixel_format == b.pixel_format
    &&& a.sample_format == b.sample_format
    &&& a.sample_rate == b.sample_rate
    &&& a.samples == b.samples
    &&& a.channels == b.channels
}

/// Copy every plane of a list.
pub fn clone_planes(planes: &Vec<Plane>) -> (r: Vec<Plane>)
    ensures
        r@.len() == planes@.len(),
        forall|i: int| 0 <= i < planes@.len() ==> #[trigger] same_plane(r@[i], planes@[i]),
{
    let mut r: Vec<Plane> = Vec::new();
    let mut i: usize = 0;
    while i < planes.len()
        invariant
            i <= planes@.len(),
            r@.len() == i,
            forall|j: int| 0 <= j < i ==> #[trigger] same_plane(r@[j], planes@[j]),
        decreases planes@.len() - i,
    {
        r.push(planes[i].clone());
        i += 1;
    }
    r
}

impl Clone for Frame {
    fn clone(&self) -> (f: Self)
        ensures
            same_frame(f, *self),
    {
        Frame {
            planes: clone_planes(&self.planes),
            pts: self.pts,
            duration: self.duration,
            width: self.width,
            height: self.height,
            pixel_format: self.pixel_format,
            sample_format: self.sample_format,
            sample_rate: self.sample_rate,
            samples: self.samples,
            channels: self.channels,
        }
    }
}

/// Stride and row count of each plane of a new video frame.
pub open spec fn video_plane_layout(w: nat, h: nat, f: PixelFormat) -> Seq<(nat, nat)> {
    match f {
        PixelFormat::Yuv420p => seq![(w, h), (w / 2, h / 2), (w / 2, h / 2)],
        PixelFormat::Nv12 => seq![(w, h), (w, h / 2)],
        PixelFormat::Rgb24 | PixelFormat::Bgr24 => seq![(w * 3, h)],
        PixelFormat::Rgba => seq![(w * 4, h)],
        _ => seq![(w, h)],
    }
}

/// A plane is zero-filled with the given stride and row count.
pub open spec fn zero_plane(p: Plane, stride: nat, rows: nat) -> bool {
    &&& p.stride == stride
    &&& p.data@.len() == stride * rows
    &&& forall|i: int| 0 <= i < p.data@.len() ==> p.data@[i] == 0u8
}

impl Frame {
    /// A zero-filled video frame: one full-size plane, plus two half-size chroma planes
    /// for YUV 4:2:0, one half-height interleaved chroma plane for NV12; packed RGB
    /// formats use one plane of 3 or 4 bytes per pixel; other formats one plane.
    pub fn new_video(width: usize, height: usize, pixel_format: PixelFormat) -> (f: Frame)
        requires
            width * height * 4 <= usize::MAX,
            width * 4 <= usize::MAX,
        ensures
            f.width == width,
            f.height == height,
            f.pixel_format == Some(pixel_format),
            f.pts is None,
            f.duration is None,
            f.sample_format is None,
            f.sample_rate is None,
            f.samples is None,
            f.channels is None,
            f.planes@.len() == video_plane_layout(width as nat, height as nat, pixel_format).len(),
            forall|i: int| 0 <= i < f.planes@.len() ==> #[trigger] zero_plane(f.planes@[i],
                video_plane_layout(width as nat, height as nat, pixel_format)[i].0,
                video_plane_layout(width as nat, height as nat, pixel_format)[i].1),
    {
        let mut planes: Vec<Plane> = Vec::new();
        proof {
            assert((width / 2) * (height / 2) <= width * height) by (nonlinear_arith);
            assert(width * (height / 2) <= width * height) by (nonlinear_arith);
            assert(width * 3 * height <= width * height * 4) by (nonlinear_arith);
            assert(width * 4 * height == width * height * 4) by (nonlinear_arith);
        }
        match pixel_format {
            PixelFormat::Yuv420p => {
                planes.push(Plane::with_capacity(width, height));
                planes.push(Plane::with_capacity(width / 2, height / 2));
                planes.push(Plane::with_capacity(width / 2, height / 2));
            }
            PixelFormat::Nv12 => {
                planes.push(Plane::with_capacity(width, height));
                planes.push(Plane::with_capacity(width, height / 2));
            }
            PixelFormat::Rgb24 | PixelFormat::Bgr24 => {
                planes.push(Plane::with_capacity(width * 3, height));
            }
            PixelFormat::Rgba => {
                planes.push(Plane::with_capacity(width * 4, height));
            }
            PixelFormat::Gray8 => {
                planes.push(Plane::with_capacity(width, height));
            }
            _ => {
                planes.push(Plane::with_capacity(width, height));
            }
        }
        Frame {
            planes,
            pts: None,
            duration: None,
            width,
            height,
            pixel_format: Some(pixel_format),
            sample_format: None,
            sample_rate: None,
            samples: None,
            channels: None,
        }
    }

    /// A zero-filled audio frame: one plane per channel of `samples` samples for planar
    /// formats, else one interleaved plane of `samples * channels` samples.
    pub fn new_audio(samples: usize, channels: u32, sample_rate: u32, sample_format: SampleFormat) -> (f: Frame)
        requires
            samples * channels * 8 <= usize::MAX,
            samples * 8 <= usize::MAX,
        ensures
            f.width == 0,
            f.height == 0,
            f.pixel_format is None,
            f.pts is None,
            f.duration is None,
            f.sample_format == Some(sample_format),
            f.sample_rate == Some(sample_rate),
            f.samples == Some(samples),
            f.channels == Some(channels),
            spec_is_planar(sample_format) ==> {
                &&& f.planes@.len() == channels
                &&& forall|i: int| 0 <= i < f.planes@.len() ==> #[trigger] zero_plane(f.planes@[i],
                    (samples * spec_bytes_per_sample(sample_format)) as nat, 1)
            },
            !spec_is_planar(sample_format) ==> {
                &&& f.planes@.len() == 1
                &&& zero_plane(f.planes@[0], (samples * channels * spec_bytes_per_sample(sample_format)) as nat, 1)
            },
    {
        let bytes_per_sample = sample_format.bytes_per_sample();
        let mut planes: Vec<Plane> = Vec::new();
        proof {
            assert(samples * bytes_per_sample <= samples * channels * 8 || channels == 0) by (nonlinear_arith)
                requires bytes_per_sample <= 8, channels >= 0;
            assert(samples * bytes_per_sample <= samples * 8) by (nonlinear_arith)
                requires bytes_per_sample <= 8;
            assert(samples * (channels as usize) * bytes_per_sample <= samples * channels * 8) by (nonlinear_arith)
                requires bytes_per_sample <= 8;
        }
        if sample_format.is_planar() {
            if channels > 0 {
                assert(samples * 8 <= samples * channels * 8) by (nonlinear_arith) requires channels >= 1;
            }
            let n = samples * bytes_per_sample;
            let mut c: u32 = 0;
            while c < channels
                invariant
                    c <= channels,
                    channels > 0 ==> n <= usize::MAX,
                    n == samples * spec_bytes_per_sample(sample_format),
                    planes@.len() == c,
                    forall|i: int| 0 <= i < planes@.len() ==> #[trigger] zero_plane(planes@[i], n as nat, 1),
                decreases channels - c,
            {
                let v = vec![0u8; n];
                let p = Plane::new(v, n);
                planes.push(p);
                c += 1;
            }
        } else {
            let total_bytes = samples * channels as usize * bytes_per_sample;
            let p = Plane::new(vec![0u8; total_bytes], total_bytes);
            planes.push(p);
            proof {
                assert(zero_plane(planes@[0], total_bytes as nat, 1));
            }
        }
        Frame {
            planes,
            pts: None,
            duration: None,
            width: 0,
            height: 0,
            pixel_format: None,
            sample_format: Some(sample_format),
            sample_rate: Some(sample_rate),
            samples: Some(samples),
            channels: Some(channels),
        }
    }
}

} // verus!
