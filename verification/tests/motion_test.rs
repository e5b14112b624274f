use rav::h264::motion::{copy_block, interpolate_luma_qpel, median3, parse_mvd, predict_motion_vector, MotionVector};
use rav::h264::nal::BitReader;

#[test]
fn test_motion_vector_zero() {
    let mv = MotionVector::zero();
    assert_eq!(mv.x, 0);
    assert_eq!(mv.y, 0);
}

#[test]
fn test_median3() {
    assert_eq!(median3(1, 2, 3), 2);
    assert_eq!(median3(3, 1, 2), 2);
    assert_eq!(median3(2, 3, 1), 2);
    assert_eq!(median3(5, 5, 5), 5);
}

#[test]
fn test_mv_prediction_all_available() {
    let mvp = predict_motion_vector(
        Some(MotionVector::new(4, 8)),
        Some(MotionVector::new(8, 4)),
        Some(MotionVector::new(6, 6)),
    );
    assert_eq!(mvp.x, 6);
    assert_eq!(mvp.y, 6);
}

#[test]
fn test_mv_prediction_no_neighbors() {
    let mvp = predict_motion_vector(None, None, None);
    assert_eq!(mvp, MotionVector::zero());
}

#[test]
fn motion_test_copy_block() {
    let src = vec![1, 2, 3, 4, 5, 6, 7, 8, 9, 10, 11, 12, 13, 14, 15];
    let mut dst = vec![0u8; 4];
    copy_block(&src, 5, 1, 1, &mut dst, 2, 2);
    assert_eq!(dst, vec![7, 8, 12, 13]);
}

#[test]
fn motion_interpolation_modes() {
    let src: Vec<u8> = vec![10, 20, 30, 40, 50, 60, 70, 80, 90];
    let mut out = vec![0u8; 1];
    // integer position (1, 1)
    interpolate_luma_qpel(&src, 3, 3, 4, 4, &mut out, 1, 1).unwrap();
    assert_eq!(out[0], 50);
    // horizontal half sample between 50 and 60
    interpolate_luma_qpel(&src, 3, 3, 6, 4, &mut out, 1, 1).unwrap();
    assert_eq!(out[0], 55);
    // vertical half sample between 50 and 80
    interpolate_luma_qpel(&src, 3, 3, 4, 6, &mut out, 1, 1).unwrap();
    assert_eq!(out[0], 65);
    // centre of 50, 60, 80, 90
    interpolate_luma_qpel(&src, 3, 3, 6, 6, &mut out, 1, 1).unwrap();
    assert_eq!(out[0], 70);
    // quarter position: (50*3*4 + 60*1*4 + 80*0 + 90*0 + 8) >> 4 = 848 >> 4 = 53
    interpolate_luma_qpel(&src, 3, 3, 5, 4, &mut out, 1, 1).unwrap();
    assert_eq!(out[0], 53);
    // beyond the frame
    assert!(interpolate_luma_qpel(&src, 3, 3, 8, 0, &mut out, 2, 1).is_err());
}

#[test]
fn motion_parse_mvd_reads_two_codes() {
    // se codes: 010 -> 1, 011 -> -1
    let data = [0b0100_1100u8];
    let mut br = BitReader::new(&data);
    assert_eq!(parse_mvd(&mut br).unwrap(), (1, -1));
    let mut short = BitReader::new(&[0u8]);
    assert!(parse_mvd(&mut short).is_err());
}
