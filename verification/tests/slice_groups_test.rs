use rav::h264::slice_groups::{MbToSliceGroupMap, SliceGroupMapType, SliceGroupParams};

#[test]
fn test_single_slice_group() {
    let params = SliceGroupParams::new();
    let map = MbToSliceGroupMap::new(&params, 4, 4).unwrap();
    for i in 0..16 {
        assert_eq!(map.get_slice_group(i), 0);
    }
}

#[test]
fn test_interleaved_map() {
    let mut params = SliceGroupParams::new();
    params.num_slice_groups = 2;
    params.map_type = SliceGroupMapType::Interleaved;
    params.run_length = vec![2, 3];
    let map = MbToSliceGroupMap::new(&params, 4, 4).unwrap();
    assert_eq!(map.get_slice_group(0), 0);
    assert_eq!(map.get_slice_group(1), 0);
    assert_eq!(map.get_slice_group(2), 1);
    assert_eq!(map.get_slice_group(3), 1);
    assert_eq!(map.get_slice_group(4), 1);
    assert_eq!(map.get_slice_group(5), 0);
}

#[test]
fn test_dispersed_map() {
    let mut params = SliceGroupParams::new();
    params.num_slice_groups = 2;
    params.map_type = SliceGroupMapType::Dispersed;
    let map = MbToSliceGroupMap::new(&params, 4, 4).unwrap();
    assert_eq!(map.get_slice_group(0), 0);
    assert_eq!(map.get_slice_group(1), 1);
    assert_eq!(map.get_slice_group(2), 0);
    assert_eq!(map.get_slice_group(3), 1);
    assert_eq!(map.get_slice_group(4), 1);
    assert_eq!(map.get_slice_group(5), 0);
}

#[test]
fn test_raster_scan_map() {
    let mut params = SliceGroupParams::new();
    params.num_slice_groups = 2;
    params.map_type = SliceGroupMapType::RasterScan;
    params.change_rate = 4;
    let map = MbToSliceGroupMap::new(&params, 4, 4).unwrap();
    assert_eq!(map.get_slice_group(0), 0);
    assert_eq!(map.get_slice_group(3), 0);
    assert_eq!(map.get_slice_group(4), 1);
    assert_eq!(map.get_slice_group(15), 1);
}

#[test]
fn test_explicit_map() {
    let mut params = SliceGroupParams::new();
    params.num_slice_groups = 3;
    params.map_type = SliceGroupMapType::Explicit;
    params.explicit_map = vec![0, 1, 2, 0, 1, 2, 0, 1, 2, 0, 1, 2, 0, 1, 2, 0];
    let map = MbToSliceGroupMap::new(&params, 4, 4).unwrap();
    assert_eq!(map.get_slice_group(0), 0);
    assert_eq!(map.get_slice_group(1), 1);
    assert_eq!(map.get_slice_group(2), 2);
    assert_eq!(map.get_slice_group(3), 0);
}

#[test]
fn test_is_fmo_enabled() {
    let params1 = SliceGroupParams::new();
    assert!(!params1.is_fmo_enabled());
    let mut params2 = SliceGroupParams::new();
    params2.num_slice_groups = 2;
    assert!(params2.is_fmo_enabled());
}

#[test]
fn test_slice_group_map_type_from_u8() {
    assert_eq!(SliceGroupMapType::from_u8(0).unwrap(), SliceGroupMapType::Interleaved);
    assert_eq!(SliceGroupMapType::from_u8(6).unwrap(), SliceGroupMapType::Explicit);
    assert!(SliceGroupMapType::from_u8(7).is_err());
}

#[test]
fn slice_group_other_types() {
    // foreground: box 0 covers (1,1)..(2,2), the rest is the last group (2); box 1 over box 0 at (2,2)
    let mut fg = SliceGroupParams::new();
    fg.num_slice_groups = 3;
    fg.map_type = SliceGroupMapType::ForegroundWithLeftOver;
    fg.top_left = vec![(1, 1), (2, 2)];
    fg.bottom_right = vec![(2, 2), (3, 3)];
    let m = MbToSliceGroupMap::new(&fg, 4, 4).unwrap();
    assert_eq!(m.get_slice_group(0), 2);
    assert_eq!(m.get_slice_group(5), 0);
    assert_eq!(m.get_slice_group(10), 1);
    assert_eq!(m.get_slice_group(15), 1);
    assert_eq!(m.get_slice_group(3), 2);
    // box-out: centre (4, 4) of 8x8, half distances 2: |x - 4| < 2 and |y - 4| < 2
    let mut bo = SliceGroupParams::new();
    bo.num_slice_groups = 2;
    bo.map_type = SliceGroupMapType::BoxOut;
    let m = MbToSliceGroupMap::new(&bo, 8, 8).unwrap();
    assert_eq!(m.get_slice_group(4 * 8 + 4), 0);
    assert_eq!(m.get_slice_group(3 * 8 + 5), 0);
    assert_eq!(m.get_slice_group(2 * 8 + 4), 1);
    assert_eq!(m.get_slice_group(0), 1);
    // wipe by column
    let mut wp = SliceGroupParams::new();
    wp.num_slice_groups = 3;
    wp.map_type = SliceGroupMapType::Wipe;
    wp.change_rate = 2;
    wp.change_direction_flag = true;
    let m = MbToSliceGroupMap::new(&wp, 6, 2).unwrap();
    assert_eq!(m.get_slice_group(1), 0);
    assert_eq!(m.get_slice_group(2), 1);
    assert_eq!(m.get_slice_group(5), 2);
    assert_eq!(m.get_slice_group(6 + 3), 1);
    assert_eq!(m.pic_size_in_mbs(), 12);
    // explicit map of the wrong size; address past the end
    let mut ex = SliceGroupParams::new();
    ex.num_slice_groups = 2;
    ex.map_type = SliceGroupMapType::Explicit;
    ex.explicit_map = vec![1, 1];
    assert!(MbToSliceGroupMap::new(&ex, 2, 2).is_err());
    ex.explicit_map = vec![1, 1, 0, 1];
    let m = MbToSliceGroupMap::new(&ex, 2, 2).unwrap();
    assert_eq!(m.get_slice_group(2), 0);
    assert_eq!(m.get_slice_group(99), 0);
}
