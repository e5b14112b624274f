use rav::h264::qp::{
    calc_slice_qp, dequantize_block_4x4, dequantize_block_8x8, dequantize_coeff, get_dequant_scale,
    map_luma_to_chroma_qp, QpState,
};

#[test]
fn test_qp_state_creation() {
    let qp = QpState::new(26, 0, 0);
    assert_eq!(qp.qp_y, 26);
    assert_eq!(qp.qp_cb, 26);
    assert_eq!(qp.qp_cr, 26);
}

#[test]
fn test_qp_state_update_with_delta() {
    let mut qp = QpState::new(26, 0, 0);
    qp.update_with_delta(5, 0, 0);
    assert_eq!(qp.qp_y, 31);
    assert_eq!(qp.qp_y_prev, 31);
    qp.update_with_delta(-10, 0, 0);
    assert_eq!(qp.qp_y, 21);
}

#[test]
fn test_qp_wrapping() {
    let mut qp = QpState::new(50, 0, 0);
    qp.update_with_delta(5, 0, 0);
    assert_eq!(qp.qp_y, 3);
}

#[test]
fn test_map_luma_to_chroma_qp_no_offset() {
    assert_eq!(map_luma_to_chroma_qp(0, 0), 0);
    assert_eq!(map_luma_to_chroma_qp(26, 0), 26);
    assert_eq!(map_luma_to_chroma_qp(51, 0), 39);
}

#[test]
fn test_map_luma_to_chroma_qp_with_offset() {
    assert_eq!(map_luma_to_chroma_qp(26, 2), 28);
    assert_eq!(map_luma_to_chroma_qp(26, -2), 24);
    assert_eq!(map_luma_to_chroma_qp(30, 0), 29);
    assert_eq!(map_luma_to_chroma_qp(31, 0), 30);
}

#[test]
fn test_chroma_qp_table_saturation() {
    assert_eq!(map_luma_to_chroma_qp(51, 0), 39);
    assert_eq!(map_luma_to_chroma_qp(50, 0), 39);
    assert_eq!(map_luma_to_chroma_qp(49, 0), 39);
    assert_eq!(map_luma_to_chroma_qp(48, 0), 39);
}

#[test]
fn test_get_dequant_scale() {
    let scale = get_dequant_scale(26, 0, 0);
    assert!(scale > 0);
    let scale_low = get_dequant_scale(10, 0, 0);
    let scale_high = get_dequant_scale(40, 0, 0);
    assert!(scale_high > scale_low);
}

#[test]
fn test_dequantize_coeff_zero() {
    let result = dequantize_coeff(0, 26, 0, 0);
    assert_eq!(result, 0);
}

#[test]
fn test_dequantize_coeff_nonzero() {
    let result = dequantize_coeff(10, 26, 0, 0);
    assert!(result > 10);
    let result_neg = dequantize_coeff(-10, 26, 0, 0);
    assert!(result_neg < -10);
}

#[test]
fn test_dequantize_block_4x4() {
    let mut coeffs = [0i16; 16];
    coeffs[0] = 10;
    coeffs[1] = 5;
    coeffs[5] = -3;
    let mut output = [0i16; 16];
    dequantize_block_4x4(&coeffs, 26, &mut output);
    assert!(output[0] > 10);
    assert!(output[1] > 5);
    assert!(output[5] < -3);
    assert_eq!(output[2], 0);
}

#[test]
fn test_dequantize_block_8x8() {
    let mut coeffs = [0i16; 64];
    coeffs[0] = 20;
    coeffs[1] = 10;
    let mut output = [0i16; 64];
    dequantize_block_8x8(&coeffs, 30, &mut output);
    assert!(output[0] > 20);
    assert!(output[1] > 10);
    assert_eq!(output[63], 0);
}

#[test]
fn qp_test_calc_slice_qp() {
    assert_eq!(calc_slice_qp(0, 0).unwrap(), 26);
    assert_eq!(calc_slice_qp(10, 5).unwrap(), 41);
    assert_eq!(calc_slice_qp(-26, 0).unwrap(), 0);
    assert_eq!(calc_slice_qp(25, 0).unwrap(), 51);
}

#[test]
fn test_calc_slice_qp_out_of_range() {
    assert!(calc_slice_qp(26, 0).is_err());
    assert!(calc_slice_qp(-27, 0).is_err());
}

#[test]
fn test_qp_chroma_offset() {
    let qp = QpState::new(30, 2, -2);
    let expected_cb = map_luma_to_chroma_qp(30, 2);
    assert_eq!(qp.qp_cb, expected_cb);
    let expected_cr = map_luma_to_chroma_qp(30, -2);
    assert_eq!(qp.qp_cr, expected_cr);
}

#[test]
fn qp_scale_exact_values() {
    // level 13 at qp % 6 == 2, weight 10, shifted by 26 / 6 == 4
    assert_eq!(get_dequant_scale(26, 0, 0), 13 * 10 * 16);
    // row 1 of the level table at qp 0, odd/odd weight 16
    assert_eq!(get_dequant_scale(0, 1, 1), 11 * 16);
    // 8x8 path: level 10, even/even weight 20
    assert_eq!(get_dequant_scale(0, 4, 4), 200);
    assert_eq!(dequantize_coeff(10, 26, 0, 0), (10 * 2080) >> 4);
}

#[test]
fn qp_update_negative_sum_gives_zero() {
    let mut qp = QpState::new(0, 0, 0);
    qp.update_with_delta(-60, 0, 0);
    assert_eq!(qp.qp_y, 0);
    assert_eq!(qp.qp_cb, 0);
}

#[test]
fn dequant_scale_grows_with_qp() {
    for (i, j) in [(0usize, 0usize), (1, 2), (3, 3), (5, 6), (7, 7)] {
        let mut last = 0;
        for qp in -3..=55 {
            let s = get_dequant_scale(qp, i, j);
            assert!(s >= last);
            if (1..=51).contains(&qp) {
                assert!(s > last);
            }
            last = s;
        }
    }
}
