use rav::simd::{CpuFeatures, SimdLevel};
use rav::stream::{CodecType, MediaType, StreamInfo};
use rav::time::TimeBase;

#[test]
fn test_codec_from_fourcc() {
    assert_eq!(CodecType::from_fourcc(b"avc1"), CodecType::H264);
    assert_eq!(CodecType::from_fourcc(b"hev1"), CodecType::H265);
    assert_eq!(CodecType::from_fourcc(b"mp4a"), CodecType::Aac);
}

#[test]
fn test_codec_type_checks() {
    assert!(CodecType::H264.is_video());
    assert!(!CodecType::H264.is_audio());
    assert!(CodecType::Aac.is_audio());
    assert!(!CodecType::Aac.is_video());
}

#[test]
fn test_stream_info_creation() {
    let tb = TimeBase::new(1, 90000);
    let stream = StreamInfo::new_video(0, CodecType::H264, tb, 1920, 1080);
    assert_eq!(stream.index, 0);
    assert_eq!(stream.codec, CodecType::H264);
    assert_eq!(stream.media_type, MediaType::Video);
    assert_eq!(stream.width, Some(1920));
    assert_eq!(stream.height, Some(1080));
}

#[test]
fn fourcc_codes_and_names() {
    assert_eq!(CodecType::from_fourcc(b"avc3"), CodecType::H264);
    assert_eq!(CodecType::from_fourcc(b"hvc1"), CodecType::H265);
    assert_eq!(CodecType::from_fourcc(b"vp08"), CodecType::Vp8);
    assert_eq!(CodecType::from_fourcc(b"vp09"), CodecType::Vp9);
    assert_eq!(CodecType::from_fourcc(b"av01"), CodecType::Av1);
    assert_eq!(CodecType::from_fourcc(b"mp3 "), CodecType::Mp3);
    assert_eq!(CodecType::from_fourcc(b".mp3"), CodecType::Mp3);
    assert_eq!(CodecType::from_fourcc(b"Opus"), CodecType::Opus);
    assert_eq!(CodecType::from_fourcc(b"opus"), CodecType::Unknown);
    assert_eq!(CodecType::H265.as_str(), "hevc");
    assert_eq!(CodecType::Mpeg2.as_str(), "mpeg2video");
    assert!(!CodecType::SubRip.is_video() && !CodecType::SubRip.is_audio());
}

#[test]
fn audio_stream_info() {
    let tb = TimeBase::new(1, 48000);
    let s = StreamInfo::new_audio(1, CodecType::Aac, tb, 48000, 2);
    assert_eq!(s.media_type, MediaType::Audio);
    assert_eq!(s.sample_rate, Some(48000));
    assert_eq!(s.channels, Some(2));
    assert_eq!(s.width, None);
    assert!(s.metadata.is_empty());
}

#[test]
fn test_simd_level_ordering() {
    assert!(SimdLevel::Avx2 > SimdLevel::Avx);
    assert!(SimdLevel::Avx > SimdLevel::Sse42);
    assert!(SimdLevel::Sse2 > SimdLevel::Scalar);
}

fn features(sse2: bool, sse41: bool, avx: bool, avx2: bool, neon: bool) -> CpuFeatures {
    CpuFeatures { sse2, ssse3: false, sse41, sse42: false, avx, avx2, fma: false, neon }
}

#[test]
fn best_simd_selection_from_flags() {
    assert_eq!(features(true, true, true, true, false).best_x86_simd(), SimdLevel::Avx2);
    assert_eq!(features(true, true, true, false, false).best_x86_simd(), SimdLevel::Avx);
    assert_eq!(features(true, true, false, false, false).best_x86_simd(), SimdLevel::Sse41);
    assert_eq!(features(true, false, false, false, false).best_x86_simd(), SimdLevel::Sse2);
    assert_eq!(features(false, false, false, false, true).best_x86_simd(), SimdLevel::Scalar);
    assert!(features(false, false, false, false, true).has_simd());
    assert!(!features(false, false, false, false, false).has_simd());
    assert_eq!(SimdLevel::Sse41.as_str(), "sse4.1");
}
