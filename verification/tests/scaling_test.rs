use rav::h264::scaling::{
    apply_scaling_4x4, apply_scaling_8x8, default_4x4_inter, default_4x4_intra, default_8x8_inter,
    default_8x8_intra, zigzag_4x4, zigzag_8x8, ScalingLists,
};

#[test]
fn test_default_scaling_lists() {
    let lists = ScalingLists::default();
    assert_eq!(lists.scaling_list_4x4[0], default_4x4_intra());
    assert_eq!(lists.scaling_list_4x4[3], default_4x4_inter());
    assert_eq!(lists.scaling_list_8x8[0], default_8x8_intra());
    assert_eq!(lists.scaling_list_8x8[1], default_8x8_inter());
}

#[test]
fn test_decode_4x4_default() {
    let deltas: Vec<i32> = vec![];
    let matrix = ScalingLists::decode_4x4(&deltas, true);
    assert_eq!(matrix, default_4x4_intra());
}

#[test]
fn test_decode_4x4_flat() {
    let deltas = vec![0i32; 16];
    let matrix = ScalingLists::decode_4x4(&deltas, false);
    for &val in &matrix {
        assert_eq!(val, 8);
    }
}

#[test]
fn test_decode_4x4_varying() {
    let deltas = vec![2, -1, 3, 0, 1, -2, 0, 0, 0, 0, 0, 0, 0, 0, 0, 0];
    let matrix = ScalingLists::decode_4x4(&deltas, false);
    let zz = zigzag_4x4();
    assert_eq!(matrix[zz[0]], 10);
    assert_eq!(matrix[zz[1]], 9);
    assert_eq!(matrix[zz[2]], 12);
}

#[test]
fn test_decode_8x8_default() {
    let deltas: Vec<i32> = vec![];
    let matrix = ScalingLists::decode_8x8(&deltas, true);
    assert_eq!(matrix, default_8x8_intra());
}

#[test]
fn test_decode_8x8_flat() {
    let deltas = vec![0i32; 64];
    let matrix = ScalingLists::decode_8x8(&deltas, false);
    for &val in &matrix {
        assert_eq!(val, 8);
    }
}

#[test]
fn test_get_4x4() {
    let lists = ScalingLists::default();
    let val = lists.get_4x4(0, 0, 0);
    assert_eq!(val, default_4x4_intra()[0]);
    let val = lists.get_4x4(3, 0, 0);
    assert_eq!(val, default_4x4_inter()[0]);
}

#[test]
fn test_get_8x8() {
    let lists = ScalingLists::default();
    let val = lists.get_8x8(0, 0, 0);
    assert_eq!(val, default_8x8_intra()[0]);
    let val = lists.get_8x8(1, 0, 0);
    assert_eq!(val, default_8x8_inter()[0]);
}

#[test]
fn test_get_out_of_bounds() {
    let lists = ScalingLists::default();
    assert_eq!(lists.get_4x4(10, 0, 0), 16);
    assert_eq!(lists.get_4x4(0, 5, 0), 16);
    assert_eq!(lists.get_8x8(10, 0, 0), 16);
    assert_eq!(lists.get_8x8(0, 10, 0), 16);
}

#[test]
fn test_set_4x4() {
    let mut lists = ScalingLists::default();
    let custom = [20u8; 16];
    lists.set_4x4(0, custom);
    assert_eq!(lists.scaling_list_4x4[0], custom);
    assert!(lists.present);
}

#[test]
fn test_set_8x8() {
    let mut lists = ScalingLists::default();
    let custom = [25u8; 64];
    lists.set_8x8(0, custom);
    assert_eq!(lists.scaling_list_8x8[0], custom);
    assert!(lists.present);
}

#[test]
fn test_apply_scaling_4x4() {
    let mut coeffs = [10i16; 16];
    let scaling = [8u8; 16];
    apply_scaling_4x4(&mut coeffs, &scaling, 26);
    for &coeff in &coeffs {
        assert_eq!(coeff, 5);
    }
}

#[test]
fn test_apply_scaling_8x8() {
    let mut coeffs = [16i16; 64];
    let scaling = [16u8; 64];
    apply_scaling_8x8(&mut coeffs, &scaling, 30);
    for &coeff in &coeffs {
        assert_eq!(coeff, 16);
    }
}

#[test]
fn test_zigzag_4x4_coverage() {
    let mut covered = [false; 16];
    for &idx in &zigzag_4x4() {
        assert!(!covered[idx], "Position {} covered twice", idx);
        covered[idx] = true;
    }
    assert!(covered.iter().all(|&c| c), "Not all positions covered");
}

#[test]
fn test_zigzag_8x8_coverage() {
    let mut covered = [false; 64];
    for &idx in &zigzag_8x8() {
        assert!(!covered[idx], "Position {} covered twice", idx);
        covered[idx] = true;
    }
    assert!(covered.iter().all(|&c| c), "Not all positions covered");
}

#[test]
fn scaling_decode_clips_to_byte() {
    let deltas = vec![300, -400];
    let matrix = ScalingLists::decode_4x4(&deltas, false);
    let zz = zigzag_4x4();
    assert_eq!(matrix[zz[0]], 255);
    assert_eq!(matrix[zz[1]], 0);
    assert_eq!(matrix[zz[15]], 0);
}

#[test]
fn scaling_set_out_of_range_is_ignored() {
    let mut lists = ScalingLists::new();
    lists.set_4x4(6, [1u8; 16]);
    lists.set_8x8(7, [1u8; 64]);
    assert!(!lists.present);
    assert_eq!(lists.scaling_list_4x4[0], default_4x4_intra());
}
