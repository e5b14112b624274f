use rav::frame::{Frame, PixelFormat, SampleFormat};
use rav::packet::Packet;
use rav::time::{Pts, TimeBase};

#[test]
fn test_pixel_format_plane_count() {
    assert_eq!(PixelFormat::Yuv420p.plane_count(), 3);
    assert_eq!(PixelFormat::Nv12.plane_count(), 2);
    assert_eq!(PixelFormat::Rgb24.plane_count(), 1);
}

#[test]
fn test_sample_format_bytes_per_sample() {
    assert_eq!(SampleFormat::U8.bytes_per_sample(), 1);
    assert_eq!(SampleFormat::S16.bytes_per_sample(), 2);
    assert_eq!(SampleFormat::F32.bytes_per_sample(), 4);
}

#[test]
fn test_sample_format_is_planar() {
    assert!(!SampleFormat::S16.is_planar());
    assert!(SampleFormat::S16P.is_planar());
}

#[test]
fn test_video_frame_creation() {
    let frame = Frame::new_video(1920, 1080, PixelFormat::Yuv420p);
    assert_eq!(frame.width, 1920);
    assert_eq!(frame.height, 1080);
    assert_eq!(frame.planes.len(), 3);
    assert_eq!(frame.pixel_format, Some(PixelFormat::Yuv420p));
    assert_eq!(frame.planes[0].stride, 1920);
    assert_eq!(frame.planes[0].data.len(), 1920 * 1080);
    assert_eq!(frame.planes[1].stride, 960);
    assert_eq!(frame.planes[1].data.len(), 960 * 540);
}

#[test]
fn test_audio_frame_creation() {
    let frame = Frame::new_audio(1024, 2, 48000, SampleFormat::F32P);
    assert_eq!(frame.samples, Some(1024));
    assert_eq!(frame.channels, Some(2));
    assert_eq!(frame.sample_rate, Some(48000));
    assert_eq!(frame.planes.len(), 2);
}

#[test]
fn test_packet_creation() {
    let data = vec![1, 2, 3, 4, 5];
    let packet = Packet::new(data.clone(), 0);
    assert_eq!(packet.data, data);
    assert_eq!(packet.stream_index, 0);
    assert_eq!(packet.pts, None);
    assert_eq!(packet.keyframe, false);
}

#[test]
fn test_packet_size() {
    let packet = Packet::new(vec![1, 2, 3], 0);
    assert_eq!(packet.size(), 3);
}

#[test]
fn test_packet_keyframe() {
    let mut packet = Packet::new(vec![1, 2, 3], 0);
    assert!(!packet.is_keyframe());
    packet.keyframe = true;
    assert!(packet.is_keyframe());
}

#[test]
fn test_time_base_conversion() {
    let tb1 = TimeBase::new(1, 90000);
    let tb2 = TimeBase::new(1, 1000);
    let converted = tb1.convert(90000, tb2).unwrap();
    assert_eq!(converted, 1000);
}

#[test]
fn test_pts_add() {
    let pts = Pts::new(100);
    let new_pts = pts.add(50);
    assert_eq!(new_pts.0, 150);
}

#[test]
fn test_time_base_display() {
    let tb = TimeBase::new(1, 90000);
    assert_eq!(tb.to_display_string(), "1/90000");
}

#[test]
fn time_default_is_microseconds() {
    let tb = TimeBase::default();
    assert_eq!(tb.to_display_string(), "1/1000000");
    assert_eq!(tb.convert(1_000_000, TimeBase::new(1, 90000)), Some(90000));
}
