//! Stream metadata: codec and media types and per-stream information.
use vstd::prelude::*;
use std::collections::HashMap;
use std::string::String;
use crate::time::TimeBase;

verus! {

/// Codec identifier.
#[derive(Debug, Clone, Copy, PartialEq, Eq, Hash, Structural)]
pub enum CodecType {
    H264,
    H265,
    Vp8,
    Vp9,
    Av1,
    Mpeg2,
    Mpeg4,
    Aac,
    Mp3,
    Opus,
    Vorbis,
    Flac,
    Pcm,
    SubRip,
    WebVtt,
    Ass,
    Unknown,
}

/// The codec's usual short name.
pub open spec fn codec_name(c: CodecType) -> Seq<char> {
    match c {
        CodecType::H264 => "h264"@,
        CodecType::H265 => "hevc"@,
        CodecType::Vp8 => "vp8"@,
        CodecType::Vp9 => "vp9"@,
        CodecType::Av1 => "av1"@,
        CodecType::Mpeg2 => "mpeg2video"@,
        CodecType::Mpeg4 => "mpeg4"@,
        CodecType::Aac => "aac"@,
        CodecType::Mp3 => "mp3"@,
        CodecType::Opus => "opus"@,
        CodecType::Vorbis => "vorbis"@,
        CodecType::Flac => "flac"@,
        CodecType::Pcm => "pcm"@,
        CodecType::SubRip => "subrip"@,
        CodecType::WebVtt => "webvtt"@,
        CodecType::Ass => "ass"@,
        CodecType::Unknown => "unknown"@,
    }
}

/// `f` is the four-character code spelled by `a`, `b`, `c`, `d`.
pub open spec fn is_code(f: Seq<u8>, a: char, b: char, c: char, d: char) -> bool {
    f == seq![a as u8, b as u8, c as u8, d as u8]
}

/// The codec of an MP4 four-character code.
pub open spec fn spec_from_fourcc(f: Seq<u8>) -> CodecType {
    if is_code(f, 'a', 'v', 'c', '1') || is_code(f, 'a', 'v', 'c', '3') { CodecType::H264 }
    else if is_code(f, 'h', 'e', 'v', '1') || is_code(f, 'h', 'v', 'c', '1') { CodecType::H265 }
    else if is_code(f, 'v', 'p', '0', '8') { CodecType::Vp8 }
    else if is_code(f, 'v', 'p', '0', '9') { CodecType::Vp9 }
    else if is_code(f, 'a', 'v', '0', '1') { CodecType::Av1 }
    else if is_code(f, 'm', 'p', '4', 'a') { CodecType::Aac }
    else if is_code(f, 'm', 'p', '3', ' ') || is_code(f, '.', 'm', 'p', '3') { CodecType::Mp3 }
    else if is_code(f, 'O', 'p', 'u', 's') { CodecType::Opus }
    else { CodecType::Unknown }
}

/// Whether the four bytes spell `a`, `b`, `c`, `d`.
fn code_is(f: &[u8; 4], a: u8, b: u8, c: u8, d: u8) -> (r: bool)
    ensures
        r == (f@ == seq![a, b, c, d]),
{
    let r = f[0] == a && f[1] == b && f[2] == c && f[3] == d;
    proof {
        if r {
            assert(f@ =~= seq![a, b, c, d]);
        }
    }
    r
}

/// The video codecs.
pub open spec fn spec_is_video(c: CodecType) -> bool {
    c == CodecType::H264 || c == CodecType::H265 || c == CodecType::Vp8 || c == CodecType::Vp9
        || c == CodecType::Av1 || c == CodecType::Mpeg2 || c == CodecType::Mpeg4
}

/// The audio codecs.
pub open spec fn spec_is_audio(c: CodecType) -> bool {
    c == CodecType::Aac || c == CodecType::Mp3 || c == CodecType::Opus || c == CodecType::Vorbis
        || c == CodecType::Flac || c == CodecType::Pcm
}

impl CodecType {
    /// The codec's short name.
    pub fn as_str(&self) -> (s: &'static str)
        ensures
            s@ == codec_name(*self),
    {
        match self {
            CodecType::H264 => "h264",
            CodecType::H265 => "hevc",
            CodecType::Vp8 => "vp8",
            CodecType::Vp9 => "vp9",
            CodecType::Av1 => "av1",
            CodecType::Mpeg2 => "mpeg2video",
            CodecType::Mpeg4 => "mpeg4",
            CodecType::Aac => "aac",
            CodecType::Mp3 => "mp3",
            CodecType::Opus => "opus",
            CodecType::Vorbis => "vorbis",
            CodecType::Flac => "flac",
            CodecType::Pcm => "pcm",
            CodecType::SubRip => "subrip",
            CodecType::WebVtt => "webvtt",
            CodecType::Ass => "ass",
            CodecType::Unknown => "unknown",
        }
    }

    /// The codec of an MP4 four-character code; unknown codes give `Unknown`.
    pub fn from_fourcc(fourcc: &[u8; 4]) -> (c: CodecType)
        ensures
            c == spec_from_fourcc(fourcc@),
    {
        if code_is(fourcc, 97, 118, 99, 49) || code_is(fourcc, 97, 118, 99, 51) {
            CodecType::H264
        } else if code_is(fourcc, 104, 101, 118, 49) || code_is(fourcc, 104, 118, 99, 49) {
            CodecType::H265
        } else if code_is(fourcc, 118, 112, 48, 56) {
            CodecType::Vp8
        } else if code_is(fourcc, 118, 112, 48, 57) {
            CodecType::Vp9
        } else if code_is(fourcc, 97, 118, 48, 49) {
            CodecType::Av1
        } else if code_is(fourcc, 109, 112, 52, 97) {
            CodecType::Aac
        } else if code_is(fourcc, 109, 112, 51, 32) || code_is(fourcc, 46, 109, 112, 51) {
            CodecType::Mp3
        } else if code_is(fourcc, 79, 112, 117, 115) {
            CodecType::Opus
        } else {
            CodecType::Unknown
        }
    }

    /// Whether this is a video codec.
    pub fn is_video(&self) -> (b: bool)
        ensures
            b == spec_is_video(*self),
    {
        match self {
            CodecType::H264 | CodecType::H265 | CodecType::Vp8 | CodecType::Vp9 | CodecType::Av1
            | CodecType::Mpeg2 | CodecType::Mpeg4 => true,
            _ => false,
        }
    }

    /// Whether this is an audio codec.
    pub fn is_audio(&self) -> (b: bool)
        ensures
            b == spec_is_audio(*self),
    {
        match self {
            CodecType::Aac | CodecType::Mp3 | CodecType::Opus | CodecType::Vorbis | CodecType::Flac
            | CodecType::Pcm => true,
            _ => false,
        }
    }
}

/// No codec is both a video and an audio codec.
pub proof fn lemma_video_audio_disjoint(c: CodecType)
    ensures
        !(spec_is_video(c) && spec_is_audio(c)),
{
}

/// Media type of a stream.
#[derive(Debug, Clone, Copy, PartialEq, Eq, Structural)]
pub enum MediaType {
    Video,
    Audio,
    Subtitle,
    Data,
}

/// Metadata of one stream of a container.
#[derive(Debug, Clone)]
pub struct StreamInfo {
    pub index: usize,
    pub codec: CodecType,
    pub media_type: MediaType,
    pub time_base: TimeBase,
    pub duration: Option<i64>,
    pub width: Option<usize>,
    pub height: Option<usize>,
    pub frame_rate: Option<(u32, u32)>,
    pub sample_rate: Option<u32>,
    pub channels: Option<u32>,
    pub extradata: Option<Vec<u8>>,
    pub metadata: HashMap<String, String>,
}

impl StreamInfo {
    /// A video stream of the given size, with nothing else known.
    pub fn new_video(index: usize, codec: CodecType, time_base: TimeBase, width: usize, height: usize) -> (s: StreamInfo)
        ensures
            s.index == index,
            s.codec == codec,
            s.media_type == MediaType::Video,
            s.time_base == time_base,
            s.duration is None,
            s.width == Some(width),
            s.height == Some(height),
            s.frame_rate is None,
            s.sample_rate is None,
            s.channels is None,
            s.extradata is None,
            s.metadata@ == Map::<String, String>::empty(),
    {
        StreamInfo {
            index,
            codec,
            media_type: MediaType::Video,
            time_base,
            duration: None,
            width: Some(width),
            height: Some(height),
            frame_rate: None,
            sample_rate: None,
            channels: None,
            extradata: None,
            metadata: HashMap::new(),
        }
    }

    /// An audio stream of the given rate and channel count, with nothing else known.
    pub fn new_audio(index: usize, codec: CodecType, time_base: TimeBase, sample_rate: u32, channels: u32) -> (s: StreamInfo)
        ensures
            s.index == index,
            s.codec == codec,
            s.media_type == MediaType::Audio,
            s.time_base == time_base,
            s.duration is None,
            s.width is None,
            s.height is None,
            s.frame_rate is None,
            s.sample_rate == Some(sample_rate),
            s.channels == Some(channels),
            s.extradata is None,
            s.metadata@ == Map::<String, String>::empty(),
    {
        StreamInfo {
            index,
            codec,
            media_type: MediaType::Audio,
            time_base,
            duration: None,
            width: None,
            height: None,
            frame_rate: None,
            sample_rate: Some(sample_rate),
            channels: Some(channels),
            extradata: None,
            metadata: HashMap::new(),
        }
    }
}

} // verus!
