use rav::h264::intra_8x8::{predict_intra_8x8, Intra8x8Mode};
use rav::h264::intra_chroma::{predict_intra_chroma, IntraChromaMode};
use rav::h264::predict::{predict_intra_16x16, predict_intra_4x4, Intra16x16Mode, Intra4x4Mode};

#[test]
fn test_intra_8x8_vertical() {
    let top = [100, 101, 102, 103, 104, 105, 106, 107, 0, 0, 0, 0, 0, 0, 0, 0];
    let left = [0u8; 8];
    let mut output = [0u8; 64];
    predict_intra_8x8(Intra8x8Mode::Vertical, &top, &left, 0, &mut output).unwrap();
    for row in 0..8 {
        for col in 0..8 {
            assert_eq!(output[row * 8 + col], top[col]);
        }
    }
}

#[test]
fn test_intra_8x8_horizontal() {
    let top = [0u8; 16];
    let left = [100, 101, 102, 103, 104, 105, 106, 107];
    let mut output = [0u8; 64];
    predict_intra_8x8(Intra8x8Mode::Horizontal, &top, &left, 0, &mut output).unwrap();
    for row in 0..8 {
        for col in 0..8 {
            assert_eq!(output[row * 8 + col], left[row]);
        }
    }
}

#[test]
fn test_intra_8x8_dc() {
    let top = [100u8; 16];
    let left = [100u8; 8];
    let mut output = [0u8; 64];
    predict_intra_8x8(Intra8x8Mode::Dc, &top, &left, 100, &mut output).unwrap();
    for i in 0..64 {
        assert_eq!(output[i], 100);
    }
}

#[test]
fn test_intra_8x8_dc_varying() {
    let mut top = [0u8; 16];
    let mut left = [0u8; 8];
    for i in 0..8 {
        top[i] = i as u8;
        left[i] = (i + 8) as u8;
    }
    let mut output = [0u8; 64];
    predict_intra_8x8(Intra8x8Mode::Dc, &top, &left, 0, &mut output).unwrap();
    assert!(output[0] >= 7 && output[0] <= 8);
}

#[test]
fn test_intra_8x8_diagonal_down_left() {
    let top = [100, 101, 102, 103, 104, 105, 106, 107, 108, 109, 110, 111, 112, 113, 114, 115];
    let left = [0u8; 8];
    let mut output = [0u8; 64];
    predict_intra_8x8(Intra8x8Mode::DiagonalDownLeft, &top, &left, 0, &mut output).unwrap();
    assert_eq!(output[0], 101);
}

#[test]
fn intra_8x8_directional_exact_values() {
    let mut top = [0u8; 16];
    for i in 0..16 {
        top[i] = (10 * i) as u8;
    }
    let left = [5u8, 15, 25, 35, 45, 55, 65, 75];
    let mut out = [0u8; 64];
    // diagonal down-right on the diagonal: (top[0] + 2 * corner + left[0] + 2) >> 2
    predict_intra_8x8(Intra8x8Mode::DiagonalDownRight, &top, &left, 20, &mut out).unwrap();
    assert_eq!(out[0], ((0 + 40 + 5 + 2) / 4) as u8);
    // vertical-left, row 0: average of top[x] and top[x + 1]
    predict_intra_8x8(Intra8x8Mode::VerticalLeft, &top, &left, 20, &mut out).unwrap();
    assert_eq!(out[3], 35);
    // horizontal-up past the table repeats the last left sample
    predict_intra_8x8(Intra8x8Mode::HorizontalUp, &top, &left, 20, &mut out).unwrap();
    assert_eq!(out[7 * 8 + 7], 75);
    assert_eq!(out[0], 10);
    // vertical-right: row 0 copies the top row
    predict_intra_8x8(Intra8x8Mode::VerticalRight, &top, &left, 20, &mut out).unwrap();
    assert_eq!(out[2], 20);
    // horizontal-down: column 0 copies the left column
    predict_intra_8x8(Intra8x8Mode::HorizontalDown, &top, &left, 20, &mut out).unwrap();
    assert_eq!(out[2 * 8], 25);
}

#[test]
fn test_chroma_dc() {
    let top = [100, 100, 100, 100, 110, 110, 110, 110];
    let left = [100, 100, 100, 100, 110, 110, 110, 110];
    let mut output = [0u8; 64];
    predict_intra_chroma(IntraChromaMode::Dc, &top, &left, 100, &mut output).unwrap();
    assert_eq!(output[0], 100);
    assert_eq!(output[4], 110);
    assert_eq!(output[4 * 8], 110);
}

#[test]
fn test_chroma_horizontal() {
    let top = [0u8; 8];
    let left = [10, 20, 30, 40, 50, 60, 70, 80];
    let mut output = [0u8; 64];
    predict_intra_chroma(IntraChromaMode::Horizontal, &top, &left, 0, &mut output).unwrap();
    for row in 0..8 {
        for col in 0..8 {
            assert_eq!(output[row * 8 + col], left[row]);
        }
    }
}

#[test]
fn test_chroma_vertical() {
    let top = [10, 20, 30, 40, 50, 60, 70, 80];
    let left = [0u8; 8];
    let mut output = [0u8; 64];
    predict_intra_chroma(IntraChromaMode::Vertical, &top, &left, 0, &mut output).unwrap();
    for row in 0..8 {
        for col in 0..8 {
            assert_eq!(output[row * 8 + col], top[col]);
        }
    }
}

#[test]
fn test_chroma_plane() {
    let top = [100, 100, 100, 100, 100, 100, 100, 110];
    let left = [100, 100, 100, 100, 100, 100, 100, 110];
    let mut output = [0u8; 64];
    predict_intra_chroma(IntraChromaMode::Plane, &top, &left, 100, &mut output).unwrap();
    for i in 0..64 {
        assert!(output[i] <= 255);
    }
    assert!(output[63] >= output[0]);
}

#[test]
fn test_chroma_plane_uniform() {
    let top = [128u8; 8];
    let left = [128u8; 8];
    let mut output = [0u8; 64];
    predict_intra_chroma(IntraChromaMode::Plane, &top, &left, 128, &mut output).unwrap();
    for i in 0..64 {
        assert!(output[i] >= 125 && output[i] <= 131);
    }
}

#[test]
fn chroma_dc_bottom_right_is_mid_grey() {
    let top = [10u8; 8];
    let left = [20u8; 8];
    let mut output = [0u8; 64];
    predict_intra_chroma(IntraChromaMode::Dc, &top, &left, 0, &mut output).unwrap();
    assert_eq!(output[0], 15);
    assert_eq!(output[7 * 8 + 7], 128);
}

#[test]
fn chroma_plane_exact_value() {
    // gradient h = 1*(t4-t2) + 2*(t5-t1) + 3*(t6-t0) + 4*(t7-t0) = 560; b = (17h + 16) >> 5 = 298;
    // v = 0 so c = 0; a = 16 * 70; sample (0, 0): (1120 - 3 * 298 + 16) >> 5 = 7
    let top = [0u8, 10, 20, 30, 40, 50, 60, 70];
    let left = [0u8; 8];
    let mut output = [0u8; 64];
    predict_intra_chroma(IntraChromaMode::Plane, &top, &left, 0, &mut output).unwrap();
    let h = 1 * (40 - 20) + 2 * (50 - 10) + 3 * (60 - 0) + 4 * (70 - 0);
    let b = (17 * h + 16) >> 5;
    let a = 16 * 70;
    let v = (a + b * (0 - 3) + 16) >> 5;
    assert_eq!(output[0] as i32, v.clamp(0, 255));
    assert_eq!(output[0], 7);
}

#[test]
fn intra_4x4_modes_and_errors() {
    // M A B C D I J K L
    let n = [50u8, 10, 20, 30, 40, 60, 70, 80, 90, 0, 0, 0, 0];
    let mut out = vec![0u8; 17];
    out[16] = 7;
    predict_intra_4x4(Intra4x4Mode::Vertical, &n, &mut out).unwrap();
    assert_eq!(&out[0..4], &[10, 20, 30, 40]);
    assert_eq!(&out[12..16], &[10, 20, 30, 40]);
    assert_eq!(out[16], 7);
    predict_intra_4x4(Intra4x4Mode::Horizontal, &n, &mut out).unwrap();
    assert_eq!(&out[4..8], &[70, 70, 70, 70]);
    // DC: (10+20+30+40+60+70+80+90+4) >> 3 = 50
    predict_intra_4x4(Intra4x4Mode::Dc, &n, &mut out).unwrap();
    assert!(out[0..16].iter().all(|&v| v == 50));
    // diagonal down-left: (a + 2b + c + 2) >> 2 = (10 + 40 + 30 + 2) >> 2 = 20; far corner is D
    predict_intra_4x4(Intra4x4Mode::DiagonalDownLeft, &n, &mut out).unwrap();
    assert_eq!(out[0], 20);
    assert_eq!(out[15], 40);
    // horizontal-up: the bottom row is L
    predict_intra_4x4(Intra4x4Mode::HorizontalUp, &n, &mut out).unwrap();
    assert_eq!(&out[12..16], &[90, 90, 90, 90]);
    // vertical-right, first sample: (A + M + 1) >> 1 = 30
    predict_intra_4x4(Intra4x4Mode::VerticalRight, &n, &mut out).unwrap();
    assert_eq!(out[0], 30);
    // too few neighbours or output bytes
    let mut short = vec![9u8; 15];
    assert!(predict_intra_4x4(Intra4x4Mode::Dc, &n, &mut short).is_err());
    assert!(short.iter().all(|&v| v == 9));
    assert!(predict_intra_4x4(Intra4x4Mode::Dc, &n[..12], &mut out).is_err());
}

#[test]
fn intra_16x16_modes() {
    let mut n = [0u8; 33];
    for i in 0..16 {
        n[i] = (i * 10) as u8;
        n[16 + i] = (i * 5) as u8;
    }
    n[32] = 0;
    let mut out = vec![0u8; 256];
    predict_intra_16x16(Intra16x16Mode::Vertical, &n, &mut out).unwrap();
    assert_eq!(out[5 * 16 + 3], 30);
    predict_intra_16x16(Intra16x16Mode::Horizontal, &n, &mut out).unwrap();
    assert_eq!(out[5 * 16 + 3], 25);
    // DC: (sum 0..150 step 10 = 1200, sum 0..75 step 5 = 600, + 16) >> 5 = 56
    predict_intra_16x16(Intra16x16Mode::Dc, &n, &mut out).unwrap();
    assert!(out.iter().all(|&v| v == 56));
    // plane mode on a uniform neighbourhood is flat
    let flat = [77u8; 33];
    predict_intra_16x16(Intra16x16Mode::Plane, &flat, &mut out).unwrap();
    assert!(out.iter().all(|&v| v == 77));
    assert!(predict_intra_16x16(Intra16x16Mode::Dc, &n[..32], &mut out).is_err());
    let mut small = vec![0u8; 255];
    assert!(predict_intra_16x16(Intra16x16Mode::Dc, &n, &mut small).is_err());
}
