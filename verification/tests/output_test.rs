use rav::frame::{Frame, PixelFormat, Plane};
use rav::h264::output::{max_dpb_frames_from_level, DecodedPicture, FrameOutputBuffer};
use rav::time::Pts;

fn create_test_frame(poc: i32) -> Frame {
    let width = 16;
    let height = 16;
    let y_data = vec![128u8; width * height];
    let uv_data = vec![128u8; (width / 2) * (height / 2)];
    Frame {
        width,
        height,
        pixel_format: Some(PixelFormat::Yuv420p),
        planes: vec![
            Plane { data: y_data, stride: width },
            Plane { data: uv_data.clone(), stride: width / 2 },
            Plane { data: uv_data, stride: width / 2 },
        ],
        pts: Some(Pts(poc as i64)),
        duration: None,
        sample_format: None,
        samples: None,
        sample_rate: None,
        channels: None,
    }
}

#[test]
fn test_frame_output_buffer_creation() {
    let buffer = FrameOutputBuffer::new(2, 16);
    assert_eq!(buffer.len(), 0);
    assert!(buffer.is_empty());
}

#[test]
fn test_add_picture() {
    let mut buffer = FrameOutputBuffer::new(2, 16);
    let frame = create_test_frame(0);
    let picture = DecodedPicture::new(frame, 0, 0, true, false);
    assert!(buffer.add_picture(picture).is_ok());
    assert_eq!(buffer.len(), 1);
}

#[test]
fn test_output_in_order() {
    let mut buffer = FrameOutputBuffer::new(2, 16);
    let pic0 = DecodedPicture::new(create_test_frame(0), 0, 0, true, false);
    let pic2 = DecodedPicture::new(create_test_frame(2), 2, 2, true, false);
    let pic1 = DecodedPicture::new(create_test_frame(1), 1, 1, true, false);
    let pic3 = DecodedPicture::new(create_test_frame(3), 3, 3, true, false);
    buffer.add_picture(pic0).unwrap();
    buffer.add_picture(pic2).unwrap();
    buffer.add_picture(pic1).unwrap();
    let output = buffer.get_output_pictures(false);
    assert_eq!(output.len(), 1);
    assert_eq!(output[0].pts, Some(Pts(0)));
    buffer.add_picture(pic3).unwrap();
    let output = buffer.get_output_pictures(false);
    assert_eq!(output.len(), 1);
    assert_eq!(output[0].pts, Some(Pts(1)));
}

#[test]
fn test_flush_outputs_all() {
    let mut buffer = FrameOutputBuffer::new(2, 16);
    let pic0 = DecodedPicture::new(create_test_frame(0), 0, 0, false, false);
    let pic1 = DecodedPicture::new(create_test_frame(1), 1, 1, false, false);
    buffer.add_picture(pic0).unwrap();
    buffer.add_picture(pic1).unwrap();
    let output = buffer.flush();
    assert_eq!(output.len(), 2);
    assert_eq!(output[0].pts, Some(Pts(0)));
    assert_eq!(output[1].pts, Some(Pts(1)));
}

#[test]
fn test_idr_triggers_output() {
    let mut buffer = FrameOutputBuffer::new(4, 16);
    let pic0 = DecodedPicture::new(create_test_frame(0), 0, 0, true, false);
    let pic1 = DecodedPicture::new(create_test_frame(1), 1, 1, true, false);
    let pic_idr = DecodedPicture::new(create_test_frame(2), 2, 2, true, true);
    buffer.add_picture(pic0).unwrap();
    buffer.add_picture(pic1).unwrap();
    let output = buffer.get_output_pictures(false);
    assert_eq!(output.len(), 0);
    buffer.add_picture(pic_idr).unwrap();
    let output = buffer.get_output_pictures(false);
    assert!(output.len() > 0);
}

#[test]
fn test_prune_output_pictures() {
    let mut buffer = FrameOutputBuffer::new(2, 16);
    let mut pic0 = DecodedPicture::new(create_test_frame(0), 0, 0, false, false);
    pic0.is_output = true;
    buffer.add_picture(pic0).unwrap();
    let mut pic1 = DecodedPicture::new(create_test_frame(1), 1, 1, true, false);
    pic1.is_output = true;
    buffer.add_picture(pic1).unwrap();
    assert_eq!(buffer.len(), 2);
    buffer.prune_output_pictures();
    assert_eq!(buffer.len(), 1);
}

#[test]
fn test_buffer_full() {
    let mut buffer = FrameOutputBuffer::new(2, 3);
    for i in 0..3 {
        let pic = DecodedPicture::new(create_test_frame(i), i, i, true, false);
        assert!(buffer.add_picture(pic).is_ok());
    }
    let pic = DecodedPicture::new(create_test_frame(3), 3, 3, true, false);
    assert!(buffer.add_picture(pic).is_err());
}

#[test]
fn test_max_dpb_frames_calculation() {
    let max_dpb = max_dpb_frames_from_level(30, 1280, 720);
    assert!(max_dpb > 0 && max_dpb <= 16);
    let max_dpb = max_dpb_frames_from_level(40, 1920, 1080);
    assert!(max_dpb > 0 && max_dpb <= 16);
    let max_dpb_small = max_dpb_frames_from_level(30, 320, 240);
    let max_dpb_large = max_dpb_frames_from_level(30, 1920, 1080);
    assert!(max_dpb_small >= max_dpb_large);
}

#[test]
fn test_clear_buffer() {
    let mut buffer = FrameOutputBuffer::new(2, 16);
    let pic0 = DecodedPicture::new(create_test_frame(0), 0, 0, true, false);
    buffer.add_picture(pic0).unwrap();
    assert_eq!(buffer.len(), 1);
    buffer.clear();
    assert_eq!(buffer.len(), 0);
    assert!(buffer.is_empty());
}

#[test]
fn test_reordering_with_gaps() {
    let mut buffer = FrameOutputBuffer::new(3, 16);
    let pic0 = DecodedPicture::new(create_test_frame(0), 0, 0, true, false);
    let pic4 = DecodedPicture::new(create_test_frame(4), 4, 2, true, false);
    let pic2 = DecodedPicture::new(create_test_frame(2), 2, 1, true, false);
    let pic6 = DecodedPicture::new(create_test_frame(6), 6, 3, true, false);
    buffer.add_picture(pic0).unwrap();
    buffer.add_picture(pic4).unwrap();
    buffer.add_picture(pic2).unwrap();
    buffer.add_picture(pic6).unwrap();
    let output = buffer.flush();
    assert_eq!(output.len(), 4);
    assert_eq!(output[0].pts, Some(Pts(0)));
    assert_eq!(output[1].pts, Some(Pts(2)));
    assert_eq!(output[2].pts, Some(Pts(4)));
    assert_eq!(output[3].pts, Some(Pts(6)));
}

#[test]
fn max_dpb_exact_values() {
    // 1280x720 is 80 x 45 = 3600 macroblocks; level 3.0 holds 8100: 8100 / 3600 = 2
    assert_eq!(max_dpb_frames_from_level(30, 1280, 720), 2);
    // level 6.2 at 320x240 (300 macroblocks) is capped at 16
    assert_eq!(max_dpb_frames_from_level(62, 320, 240), 16);
    // an empty picture gives 16
    assert_eq!(max_dpb_frames_from_level(10, 0, 0), 16);
    // an unknown level takes level 3.0's capacity
    assert_eq!(max_dpb_frames_from_level(99, 1280, 720), 2);
}

#[test]
fn mark_prior_and_clear_references() {
    let mut buffer = FrameOutputBuffer::new(1, 16);
    buffer.add_picture(DecodedPicture::new(create_test_frame(5), 5, 0, false, false)).unwrap();
    buffer.add_picture(DecodedPicture::new(create_test_frame(9), 9, 1, false, false)).unwrap();
    // POC 5 is marked output; pruning drops it (not a reference)
    buffer.mark_prior_pictures_for_output(6);
    buffer.prune_output_pictures();
    assert_eq!(buffer.len(), 1);
    let out = buffer.flush();
    assert_eq!(out.len(), 1);
    assert_eq!(out[0].pts, Some(Pts(9)));
    buffer.add_picture(DecodedPicture::new(create_test_frame(1), 1, 2, true, false)).unwrap();
    buffer.clear_references();
    assert!(buffer.is_empty());
}
