use rav::h264::inter_pred::{copy_block, predict_bidirectional, predict_chroma_inter, predict_luma_inter, PartitionSize};

#[test]
fn test_partition_size_dimensions() {
    assert_eq!(PartitionSize::Size16x16.dimensions(), (16, 16));
    assert_eq!(PartitionSize::Size8x8.dimensions(), (8, 8));
    assert_eq!(PartitionSize::Size4x4.dimensions(), (4, 4));
}

#[test]
fn inter_pred_test_copy_block() {
    let src = vec![128u8; 256];
    let mut dst = vec![0u8; 64];
    copy_block(&src, 4, 4, 8, 8, 16, &mut dst);
    assert_eq!(dst[0], 128);
    assert_eq!(dst[63], 128);
}

#[test]
fn test_predict_luma_inter_integer_pel() {
    let mut ref_frame = vec![0u8; 32 * 32];
    for y in 8..16 {
        for x in 8..16 {
            ref_frame[y * 32 + x] = 200;
        }
    }
    let mut output = vec![0u8; 64];
    predict_luma_inter(&ref_frame, 0, 0, 8, 8, 8, 8, 32, &mut output).unwrap();
    assert_eq!(output[0], 200);
    assert_eq!(output[63], 200);
}

#[test]
fn test_predict_luma_inter_half_pel() {
    let ref_frame = vec![128u8; 32 * 32];
    let mut output = vec![0u8; 64];
    predict_luma_inter(&ref_frame, 2, 0, 8, 8, 8, 8, 32, &mut output).unwrap();
    assert_eq!(output[0], 128);
    let mut ref_frame2 = vec![0u8; 32 * 32];
    for y in 0..32 {
        for x in 0..32 {
            ref_frame2[y * 32 + x] = (x * 8).min(255) as u8;
        }
    }
    predict_luma_inter(&ref_frame2, 2, 0, 8, 8, 8, 8, 32, &mut output).unwrap();
    assert!(output[0] >= 60 && output[0] <= 70);
}

#[test]
fn test_predict_chroma_inter_integer_pel() {
    let ref_frame = vec![150u8; 16 * 16];
    let mut output = vec![0u8; 16];
    predict_chroma_inter(&ref_frame, 0, 0, 4, 4, 4, 4, 16, &mut output).unwrap();
    assert_eq!(output[0], 150);
    assert_eq!(output[15], 150);
}

#[test]
fn test_predict_chroma_inter_quarter_pel() {
    let mut ref_frame = vec![100u8; 16 * 16];
    for i in 0..16 {
        ref_frame[i] = 200;
    }
    let mut output = vec![0u8; 16];
    predict_chroma_inter(&ref_frame, 0, 2, 0, 0, 4, 4, 16, &mut output).unwrap();
    assert!(output[0] > 100 && output[0] <= 200);
}

#[test]
fn test_bidirectional_prediction_averaging() {
    let pred_l0 = vec![100u8; 64];
    let pred_l1 = vec![200u8; 64];
    let mut output = vec![0u8; 64];
    predict_bidirectional(&pred_l0, &pred_l1, &mut output);
    assert_eq!(output[0], 150);
    assert_eq!(output[63], 150);
}

#[test]
fn test_bidirectional_prediction_rounding() {
    let pred_l0 = vec![101u8; 64];
    let pred_l1 = vec![102u8; 64];
    let mut output = vec![0u8; 64];
    predict_bidirectional(&pred_l0, &pred_l1, &mut output);
    assert_eq!(output[0], 102);
}

#[test]
fn inter_pred_exact_filter_values() {
    // a gradient of 8 per sample: the half sample between 64 and 72 is 68
    let mut frame = vec![0u8; 32 * 32];
    for y in 0..32 {
        for x in 0..32 {
            frame[y * 32 + x] = (x * 8).min(255) as u8;
        }
    }
    let mut out = vec![0u8; 1];
    predict_luma_inter(&frame, 2, 0, 8, 8, 1, 1, 32, &mut out).unwrap();
    assert_eq!(out[0], 68);
    // two-dimensional: the rows are equal, the first pass gives 68 and the second
    // pass scales by 32 and rounds with (sum + 512) >> 10: (68 * 32 + 512) >> 10 = 2
    predict_luma_inter(&frame, 2, 2, 8, 8, 1, 1, 32, &mut out).unwrap();
    assert_eq!(out[0], 2);
    // vertical on a horizontal gradient keeps the column value
    predict_luma_inter(&frame, 0, 2, 8, 8, 1, 1, 32, &mut out).unwrap();
    assert_eq!(out[0], 64);
    // chroma: (6 * 8 * 200 + 2 * 8 * 100 + 32) >> 6 = 175 for a quarter step down
    let mut chroma = vec![100u8; 16 * 16];
    for i in 0..16 {
        chroma[i] = 200;
    }
    let mut c = vec![0u8; 1];
    predict_chroma_inter(&chroma, 0, 2, 0, 0, 1, 1, 16, &mut c).unwrap();
    assert_eq!(c[0], 175);
}
