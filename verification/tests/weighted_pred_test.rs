use rav::h264::weighted_pred::WeightedPredParams;

#[test]
fn test_weighted_pred_default() {
    let params = WeightedPredParams::default();
    assert_eq!(params.luma_weight_l0, 64);
    assert_eq!(params.luma_offset_l0, 0);
    assert_eq!(params.luma_log2_weight_denom, 6);
}

#[test]
fn test_apply_luma_l0_neutral() {
    let params = WeightedPredParams::default();
    let mut pred = vec![128u8; 16];
    params.apply_luma_l0(&mut pred);
    assert_eq!(pred[0], 128);
}

#[test]
fn test_apply_luma_l0_brighten() {
    let mut params = WeightedPredParams::default();
    params.luma_weight_l0 = 80;
    params.luma_offset_l0 = 10;
    let mut pred = vec![100u8; 16];
    params.apply_luma_l0(&mut pred);
    assert!(pred[0] > 100);
}

#[test]
fn test_apply_luma_bi() {
    let params = WeightedPredParams::default();
    let pred_l0 = vec![100u8; 16];
    let pred_l1 = vec![200u8; 16];
    let mut output = vec![0u8; 16];
    params.apply_luma_bi(&pred_l0, &pred_l1, &mut output);
    assert_eq!(output[0], 150);
}

#[test]
fn test_apply_luma_bi_weighted() {
    let mut params = WeightedPredParams::default();
    params.luma_weight_l0 = 80;
    params.luma_weight_l1 = 48;
    let pred_l0 = vec![100u8; 16];
    let pred_l1 = vec![200u8; 16];
    let mut output = vec![0u8; 16];
    params.apply_luma_bi(&pred_l0, &pred_l1, &mut output);
    assert!(output[0] < 150);
}

#[test]
fn test_apply_chroma_l0() {
    let params = WeightedPredParams::default();
    let mut pred_cb = vec![128u8; 64];
    let mut pred_cr = vec![128u8; 64];
    params.apply_chroma_l0(&mut pred_cb, &mut pred_cr);
    assert_eq!(pred_cb[0], 128);
    assert_eq!(pred_cr[0], 128);
}

#[test]
fn test_apply_chroma_bi() {
    let params = WeightedPredParams::default();
    let pred_l0_cb = vec![100u8; 64];
    let pred_l0_cr = vec![100u8; 64];
    let pred_l1_cb = vec![200u8; 64];
    let pred_l1_cr = vec![200u8; 64];
    let mut output_cb = vec![0u8; 64];
    let mut output_cr = vec![0u8; 64];
    params.apply_chroma_bi(&pred_l0_cb, &pred_l0_cr, &pred_l1_cb, &pred_l1_cr, &mut output_cb, &mut output_cr);
    assert_eq!(output_cb[0], 150);
    assert_eq!(output_cr[0], 150);
}

#[test]
fn weighted_exact_values_and_clipping() {
    let mut params = WeightedPredParams::default();
    params.luma_weight_l1 = 80;
    params.luma_offset_l1 = 10;
    // (100 * 80 + 32) >> 6 = 125, + 10 = 135
    let mut pred = vec![100u8, 250];
    params.apply_luma_l1(&mut pred);
    assert_eq!(pred, vec![135, 255]);
    params.luma_weight_l0 = 80;
    params.luma_weight_l1 = 48;
    let mut output = vec![7u8; 3];
    // (100 * 80 + 200 * 48 + 64) >> 7 = 138, + (0 + 10 + 1) >> 1 = 143
    params.apply_luma_bi(&[100, 100], &[200, 200], &mut output);
    assert_eq!(output, vec![143, 143, 7]);
}
