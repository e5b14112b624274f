use rav::h264::direct_mode::{
    derive_direct_mb, derive_spatial_direct_mv, derive_temporal_direct_4x4, derive_temporal_direct_mv, get_direct_mode,
    median_motion_vector, ColocatedMb, DirectMode, DirectPredMode,
};

#[test]
fn test_temporal_direct_mv_zero_motion() {
    let colocated = ColocatedMb { mv: (0, 0), ref_idx: 0, is_intra: false, poc: 2 };
    let result = derive_temporal_direct_mv(&colocated, 4, 0, 2).unwrap();
    assert_eq!(result.mv_l0, (0, 0));
    assert_eq!(result.mv_l1, (0, 0));
    assert_eq!(result.pred_mode, DirectPredMode::Bi);
}

#[test]
fn test_temporal_direct_mv_intra_colocated() {
    let colocated = ColocatedMb { mv: (32, 16), ref_idx: 0, is_intra: true, poc: 2 };
    let result = derive_temporal_direct_mv(&colocated, 4, 0, 2).unwrap();
    assert_eq!(result.mv_l0, (0, 0));
    assert_eq!(result.mv_l1, (0, 0));
}

#[test]
fn test_temporal_direct_mv_scaling() {
    let colocated = ColocatedMb { mv: (16, 8), ref_idx: 0, is_intra: false, poc: 2 };
    let result = derive_temporal_direct_mv(&colocated, 4, 0, 2).unwrap();
    assert!(result.mv_l0 != (0, 0) || result.mv_l1 != (0, 0));
    assert_eq!(result.pred_mode, DirectPredMode::Bi);
}

#[test]
fn test_spatial_direct_mv_median() {
    let result = derive_spatial_direct_mv(Some((10, 5)), Some((20, 10)), Some((15, 8))).unwrap();
    assert_eq!(result.mv_l0, (15, 8));
    assert_eq!(result.mv_l1, (0, 0));
    assert_eq!(result.pred_mode, DirectPredMode::L0);
}

#[test]
fn test_spatial_direct_mv_missing_neighbors() {
    let result = derive_spatial_direct_mv(Some((10, 5)), None, None).unwrap();
    assert_eq!(result.mv_l0, (0, 0));
}

#[test]
fn test_median_motion_vector() {
    let mv = median_motion_vector(Some((10, 20)), Some((30, 40)), Some((20, 30)));
    assert_eq!(mv, (20, 30));
}

#[test]
fn test_median_motion_vector_all_none() {
    let mv = median_motion_vector(None, None, None);
    assert_eq!(mv, (0, 0));
}

#[test]
fn test_get_direct_mode() {
    assert_eq!(get_direct_mode(true), DirectMode::Spatial);
    assert_eq!(get_direct_mode(false), DirectMode::Temporal);
}

#[test]
fn test_derive_direct_mb_temporal() {
    let colocated = ColocatedMb { mv: (8, 4), ref_idx: 0, is_intra: false, poc: 2 };
    let result = derive_direct_mb(DirectMode::Temporal, &colocated, (None, None, None), 4, 0, 2).unwrap();
    assert_eq!(result.pred_mode, DirectPredMode::Bi);
}

#[test]
fn test_derive_direct_mb_spatial() {
    let colocated = ColocatedMb::default();
    let neighbors = (Some((10, 5)), Some((20, 10)), Some((15, 8)));
    let result = derive_direct_mb(DirectMode::Spatial, &colocated, neighbors, 4, 0, 2).unwrap();
    assert_eq!(result.mv_l0, (15, 8));
    assert_eq!(result.pred_mode, DirectPredMode::L0);
}

#[test]
fn test_temporal_direct_4x4() {
    let mut colocated_4x4 = [(0i16, 0i16); 16];
    for i in 0..16 {
        colocated_4x4[i] = (i as i16 * 2, i as i16);
    }
    let result = derive_temporal_direct_4x4(&colocated_4x4, 4, 0, 2).unwrap();
    for i in 0..16 {
        if i > 0 {
            assert!(result.mvs_l0[i] != (0, 0) || result.mvs_l1[i] != (0, 0));
        }
    }
}

#[test]
fn direct_temporal_exact_values() {
    // td = max(2 - 4, 1) = 1, tb = 4, tx = 16384: list 0 gets 4 * mv
    let colocated = ColocatedMb { mv: (16, 8), ref_idx: 0, is_intra: false, poc: 2 };
    let result = derive_temporal_direct_mv(&colocated, 4, 0, 2).unwrap();
    assert_eq!(result.mv_l0, (64, 32));
    assert_eq!(result.mv_l1, (-48, -24));
    // td = 4, tb = 2: tx = (16384 + 2) / 4 = 4096, (4096 * 16 * 2 + 8192) >> 14 = 8
    let colocated = ColocatedMb { mv: (16, -16), ref_idx: 1, is_intra: false, poc: 8 };
    let result = derive_temporal_direct_mv(&colocated, 4, 2, 8).unwrap();
    assert_eq!(result.mv_l0, (8, -8));
    assert_eq!(result.mv_l1, (8, -8));
    // no reference: zero motion
    let colocated = ColocatedMb { mv: (16, 8), ref_idx: -1, is_intra: false, poc: 2 };
    assert_eq!(derive_temporal_direct_mv(&colocated, 4, 0, 2).unwrap().mv_l0, (0, 0));
}
