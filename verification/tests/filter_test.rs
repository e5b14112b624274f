use rav::filter::crop::CropFilter;
use rav::filter::fps::FpsSchedule;
use rav::filter::deinterlace::{DeinterlaceFilter, DeinterlaceMethod};
use rav::filter::pad::PadFilter;
use rav::filter::transpose::{TransposeFilter, TransposeOp};
use rav::filter::Filter;
use rav::frame::{Frame, PixelFormat, Plane};
use rav::time::Pts;

fn yuv(width: usize, height: usize, y: u8, uv: u8) -> Frame {
    Frame {
        planes: vec![
            Plane { data: vec![y; width * height], stride: width },
            Plane { data: vec![uv; (width / 2) * (height / 2)], stride: width / 2 },
            Plane { data: vec![uv; (width / 2) * (height / 2)], stride: width / 2 },
        ],
        pts: None,
        duration: None,
        width,
        height,
        pixel_format: Some(PixelFormat::Yuv420p),
        sample_format: None,
        sample_rate: None,
        samples: None,
        channels: None,
    }
}

fn create_test_frame(width: usize, height: usize) -> Frame {
    let mut frame = Frame::new_video(width, height, PixelFormat::Yuv420p);
    for y in 0..height {
        for x in 0..width {
            frame.planes[0].data[y * width + x] = y as u8;
        }
    }
    let uv_size = (width / 2) * (height / 2);
    for i in 0..uv_size {
        frame.planes[1].data[i] = 128;
        frame.planes[2].data[i] = 128;
    }
    frame
}

fn create_interlaced_frame(width: usize, height: usize) -> Frame {
    let mut frame = Frame::new_video(width, height, PixelFormat::Yuv420p);
    for y in 0..height {
        for x in 0..width {
            frame.planes[0].data[y * width + x] = if y % 2 == 0 { 100 } else { 200 };
        }
    }
    let uv_size = (width / 2) * (height / 2);
    for i in 0..uv_size {
        frame.planes[1].data[i] = 128;
        frame.planes[2].data[i] = 128;
    }
    frame
}

#[test]
fn test_crop_yuv420p() {
    let input_frame = yuv(1920, 1080, 128, 128);
    let mut filter = CropFilter::new(100, 50, 640, 480);
    let output = filter.filter(&input_frame).unwrap();
    assert_eq!(output.width, 640);
    assert_eq!(output.height, 480);
    assert_eq!(output.planes[0].stride, 640);
    assert_eq!(output.planes[1].stride, 320);
}

#[test]
fn crop_exact_region_and_errors() {
    let mut input = yuv(8, 4, 0, 0);
    for i in 0..32 {
        input.planes[0].data[i] = i as u8;
    }
    input.pts = Some(Pts(7));
    let mut filter = CropFilter::new(2, 1, 4, 2);
    let out = filter.filter(&input).unwrap();
    assert_eq!(out.planes[0].data, vec![10, 11, 12, 13, 18, 19, 20, 21]);
    assert_eq!(out.pts, Some(Pts(7)));
    assert_eq!(out.planes[1].data.len(), 2);
    assert_eq!(filter.name(), "crop");
    // past the frame
    let mut big = CropFilter::new(6, 0, 4, 2);
    assert!(big.filter(&input).is_err());
    // a format without a crop
    let mut gray = input.clone();
    gray.pixel_format = Some(PixelFormat::Gray8);
    assert!(matches!(filter.filter(&gray), Err(rav::error::Error::Unsupported { .. })));
}

#[test]
fn test_pad_yuv420p() {
    let input_frame = Frame {
        planes: vec![
            Plane { data: vec![200; 640 * 480], stride: 640 },
            Plane { data: vec![128; 320 * 240], stride: 320 },
            Plane { data: vec![128; 320 * 240], stride: 320 },
        ],
        pts: None,
        duration: None,
        width: 640,
        height: 480,
        pixel_format: Some(PixelFormat::Yuv420p),
        sample_format: None,
        sample_rate: None,
        samples: None,
        channels: None,
    };
    let mut filter = PadFilter::new(1920, 1080, 640, 300, [16, 128, 128]);
    let output = filter.filter(&input_frame).unwrap();
    assert_eq!(output.width, 1920);
    assert_eq!(output.height, 1080);
    assert_eq!(output.planes[0].data.len(), 1920 * 1080);
}

#[test]
fn pad_exact_layout_and_errors() {
    let input = yuv(2, 2, 9, 50);
    let mut filter = PadFilter::new(4, 4, 1, 1, [1, 2, 3]);
    let out = filter.filter(&input).unwrap();
    assert_eq!(out.planes[0].data, vec![1, 1, 1, 1, 1, 9, 9, 1, 1, 9, 9, 1, 1, 1, 1, 1]);
    // chroma: 1x1 at offset (0, 0) in 2x2
    assert_eq!(out.planes[1].data, vec![50, 2, 2, 2]);
    // chroma offset is 0 and size 1x1: the sample lands at the corner
    let mut filter2 = PadFilter::new(4, 4, 2, 2, [1, 2, 3]);
    let out2 = filter2.filter(&input).unwrap();
    assert_eq!(out2.planes[2].data, vec![3, 3, 3, 50]);
    // packed RGB
    let rgb = Frame {
        planes: vec![Plane { data: vec![7, 8, 9], stride: 3 }],
        pts: None,
        duration: None,
        width: 1,
        height: 1,
        pixel_format: Some(PixelFormat::Rgb24),
        sample_format: None,
        sample_rate: None,
        samples: None,
        channels: None,
    };
    let mut f3 = PadFilter::new(2, 1, 1, 0, [1, 2, 3]);
    let out3 = f3.filter(&rgb).unwrap();
    assert_eq!(out3.planes[0].data, vec![1, 2, 3, 7, 8, 9]);
    assert_eq!(out3.planes[0].stride, 6);
    // does not fit
    let mut small = PadFilter::new(2, 2, 1, 0, [0, 0, 0]);
    assert!(small.filter(&input).is_err());
    assert_eq!(filter.name(), "pad");
}

#[test]
fn test_rotate_90() {
    let input = create_test_frame(4, 2);
    let mut filter = TransposeFilter::new(TransposeOp::Rotate90);
    let output = filter.filter(&input).unwrap();
    assert_eq!(output.width, 2);
    assert_eq!(output.height, 4);
    assert_eq!(output.planes[0].data[0], input.planes[0].data[4]);
}

#[test]
fn test_rotate_180() {
    let input = create_test_frame(4, 4);
    let mut filter = TransposeFilter::new(TransposeOp::Rotate180);
    let output = filter.filter(&input).unwrap();
    assert_eq!(output.width, 4);
    assert_eq!(output.height, 4);
    assert_eq!(output.planes[0].data[0], input.planes[0].data[15]);
}

#[test]
fn test_rotate_270() {
    let input = create_test_frame(4, 2);
    let mut filter = TransposeFilter::new(TransposeOp::Rotate270);
    let output = filter.filter(&input).unwrap();
    assert_eq!(output.width, 2);
    assert_eq!(output.height, 4);
}

#[test]
fn test_flip_h() {
    let mut input = create_test_frame(4, 2);
    input.planes[0].data[0] = 10;
    input.planes[0].data[3] = 20;
    let mut filter = TransposeFilter::new(TransposeOp::FlipH);
    let output = filter.filter(&input).unwrap();
    assert_eq!(output.planes[0].data[0], 20);
    assert_eq!(output.planes[0].data[3], 10);
}

#[test]
fn test_flip_v() {
    let mut input = create_test_frame(2, 4);
    input.planes[0].data[0] = 10;
    input.planes[0].data[6] = 20;
    let mut filter = TransposeFilter::new(TransposeOp::FlipV);
    let output = filter.filter(&input).unwrap();
    assert_eq!(output.planes[0].data[0], 20);
    assert_eq!(output.planes[0].data[6], 10);
}

#[test]
fn transpose_test_pts_preserved() {
    let mut input = create_test_frame(4, 4);
    input.pts = Some(Pts(12345));
    let mut filter = TransposeFilter::new(TransposeOp::Rotate90);
    let output = filter.filter(&input).unwrap();
    assert_eq!(output.pts, Some(Pts(12345)));
}

#[test]
fn transpose_exact_permutations_and_errors() {
    let mut input = Frame::new_video(3, 2, PixelFormat::Yuv420p);
    input.planes[0].data = vec![1, 2, 3, 4, 5, 6];
    let mut r90 = TransposeFilter::new(TransposeOp::Rotate90);
    assert_eq!(r90.filter(&input).unwrap().planes[0].data, vec![4, 1, 5, 2, 6, 3]);
    let mut r270 = TransposeFilter::new(TransposeOp::Rotate270);
    assert_eq!(r270.filter(&input).unwrap().planes[0].data, vec![3, 6, 2, 5, 1, 4]);
    let mut tr = TransposeFilter::new(TransposeOp::Transpose);
    assert_eq!(tr.filter(&input).unwrap().planes[0].data, vec![1, 4, 2, 5, 3, 6]);
    let mut rtr = TransposeFilter::new(TransposeOp::ReverseTranspose);
    assert_eq!(rtr.filter(&input).unwrap().planes[0].data, vec![6, 3, 5, 2, 4, 1]);
    let mut r180 = TransposeFilter::new(TransposeOp::Rotate180);
    assert_eq!(r180.filter(&input).unwrap().planes[0].data, vec![6, 5, 4, 3, 2, 1]);
    let mut rgb = input.clone();
    rgb.pixel_format = Some(PixelFormat::Rgb24);
    assert!(r90.filter(&rgb).is_err());
    let mut two = input.clone();
    two.planes.truncate(2);
    assert!(r90.filter(&two).is_err());
    assert_eq!(r90.name(), "transpose");
}

#[test]
fn test_bob_deinterlace() {
    let input = create_interlaced_frame(4, 4);
    let mut filter = DeinterlaceFilter::new(DeinterlaceMethod::Bob, true);
    let output = filter.filter(&input).unwrap();
    assert_eq!(output.width, 4);
    assert_eq!(output.height, 4);
    assert_eq!(output.planes[0].data[0], 100);
    assert_eq!(output.planes[0].data[4], 100);
}

#[test]
fn test_blend_deinterlace() {
    let input = create_interlaced_frame(4, 4);
    let mut filter = DeinterlaceFilter::new(DeinterlaceMethod::Blend, true);
    let output = filter.filter(&input).unwrap();
    assert_eq!(output.planes[0].data[4], 150);
}

#[test]
fn test_linear_deinterlace() {
    let input = create_interlaced_frame(4, 4);
    let mut filter = DeinterlaceFilter::new(DeinterlaceMethod::Linear, true);
    let output = filter.filter(&input).unwrap();
    assert_eq!(output.planes[0].data[0], 100);
    assert_eq!(output.planes[0].data[4], 100);
    assert_eq!(output.planes[0].data[8], 100);
}

#[test]
fn test_yadif_deinterlace() {
    let input = create_interlaced_frame(4, 4);
    let mut filter = DeinterlaceFilter::new(DeinterlaceMethod::Yadif, true);
    let output = filter.filter(&input).unwrap();
    assert!(output.planes[0].data[4] >= 100 && output.planes[0].data[4] <= 200);
}

#[test]
fn deinterlace_test_pts_preserved() {
    let mut input = create_interlaced_frame(4, 4);
    input.pts = Some(Pts(54321));
    let mut filter = DeinterlaceFilter::new(DeinterlaceMethod::Linear, true);
    let output = filter.filter(&input).unwrap();
    assert_eq!(output.pts, Some(Pts(54321)));
}

#[test]
fn deinterlace_bottom_field_and_last_line() {
    let input = create_interlaced_frame(4, 4);
    // bottom field first: even lines interpolated; line 0 copies line 1 (200)
    let mut linear = DeinterlaceFilter::new(DeinterlaceMethod::Linear, false);
    let out = linear.filter(&input).unwrap();
    assert_eq!(out.planes[0].data[0], 200);
    // bob, bottom field first: line 2 takes line 3
    let mut bob = DeinterlaceFilter::new(DeinterlaceMethod::Bob, false);
    let out = bob.filter(&input).unwrap();
    assert_eq!(out.planes[0].data[8], 200);
    // linear, top field first: the last line (odd, not in the field) copies line 2
    let mut lin_top = DeinterlaceFilter::new(DeinterlaceMethod::Linear, true);
    let out = lin_top.filter(&input).unwrap();
    assert_eq!(out.planes[0].data[12], 100);
    let mut rgb = input.clone();
    rgb.pixel_format = Some(PixelFormat::Rgb24);
    assert!(lin_top.filter(&rgb).is_err());
    assert_eq!(lin_top.name(), "deinterlace");
}

#[test]
fn fps_schedule_repeats_and_drops() {
    // 30 fps in, 60 fps out: each 3000-tick input frame gives two 1500-tick outputs.
    let mut sched = FpsSchedule::new(1500);
    let mut f = yuv(4, 4, 10, 20);
    f.pts = Some(Pts(0));
    let out = sched.process(&f, 3000);
    assert_eq!(out.len(), 2);
    assert_eq!(out[0].pts, Some(Pts(0)));
    assert_eq!(out[1].pts, Some(Pts(1500)));
    assert_eq!(out[1].duration, Some(1500));
    assert_eq!(out[1].planes[0].data, f.planes[0].data);
    assert_eq!(sched.next_output_pts, 3000);
    // 60 fps in, 30 fps out: every other input frame is dropped.
    let mut sched = FpsSchedule::new(3000);
    let mut counts = Vec::new();
    for i in 0..4 {
        f.pts = Some(Pts(i * 1500));
        counts.push(sched.process(&f, 1500).len());
    }
    assert_eq!(counts, vec![1, 0, 1, 0]);
}

#[test]
fn rotations_and_flips_are_undone_by_their_inverse() {
    let mut input = create_test_frame(4, 2);
    for i in 0..8 {
        input.planes[0].data[i] = (i as u8) * 7 + 1;
    }
    let pairs = [
        (TransposeOp::Rotate90, TransposeOp::Rotate270),
        (TransposeOp::Rotate270, TransposeOp::Rotate90),
        (TransposeOp::Rotate180, TransposeOp::Rotate180),
        (TransposeOp::FlipH, TransposeOp::FlipH),
        (TransposeOp::FlipV, TransposeOp::FlipV),
        (TransposeOp::Transpose, TransposeOp::Transpose),
        (TransposeOp::ReverseTranspose, TransposeOp::ReverseTranspose),
    ];
    for (op, inv) in pairs {
        let once = TransposeFilter::new(op).filter(&input).unwrap();
        let back = TransposeFilter::new(inv).filter(&once).unwrap();
        assert_eq!(back.width, input.width);
        assert_eq!(back.height, input.height);
        assert_eq!(back.planes[0].data, input.planes[0].data);
    }
}

#[test]
fn crop_rgb24_region_in_pixels() {
    let frame = Frame {
        planes: vec![Plane { data: (0..24).collect(), stride: 12 }],
        pts: None,
        duration: None,
        width: 4,
        height: 2,
        pixel_format: Some(PixelFormat::Rgb24),
        sample_format: None,
        sample_rate: None,
        samples: None,
        channels: None,
    };
    let out = CropFilter::new(0, 0, 2, 2).filter(&frame).unwrap();
    assert_eq!((out.width, out.height, out.planes[0].stride), (2, 2, 6));
    assert_eq!(out.planes[0].data, vec![0, 1, 2, 3, 4, 5, 12, 13, 14, 15, 16, 17]);
    let out = CropFilter::new(2, 1, 2, 1).filter(&frame).unwrap();
    assert_eq!(out.planes[0].data, vec![18, 19, 20, 21, 22, 23]);
    assert!(CropFilter::new(3, 0, 2, 1).filter(&frame).is_err());
}

#[test]
fn crop_undoes_pad() {
    let mut input = create_test_frame(4, 2);
    for i in 0..8 {
        input.planes[0].data[i] = (i as u8) * 3 + 5;
    }
    let padded = PadFilter::new(8, 6, 2, 2, [0, 128, 128]).filter(&input).unwrap();
    let back = CropFilter::new(2, 2, 4, 2).filter(&padded).unwrap();
    assert_eq!((back.width, back.height), (4, 2));
    assert_eq!(back.planes[0].data, input.planes[0].data);
    assert_eq!(back.planes[1].data, input.planes[1].data);
    assert_eq!(back.planes[2].data, input.planes[2].data);
}
