use rav::h264::parser::{Pps, Sps};
use rav::h264::Profile;

#[test]
fn test_sps_dimensions() {
    let sps = Sps {
        profile_idc: Profile::Baseline,
        level_idc: 30,
        seq_parameter_set_id: 0,
        chroma_format_idc: 1,
        bit_depth_luma: 8,
        bit_depth_chroma: 8,
        log2_max_frame_num: 4,
        pic_order_cnt_type: 0,
        log2_max_pic_order_cnt_lsb: 4,
        num_ref_frames: 1,
        gaps_in_frame_num_allowed: false,
        pic_width_in_mbs: 80,
        pic_height_in_map_units: 45,
        frame_mbs_only_flag: true,
        mb_adaptive_frame_field_flag: false,
        direct_8x8_inference_flag: true,
        frame_cropping_flag: false,
        frame_crop_left_offset: 0,
        frame_crop_right_offset: 0,
        frame_crop_top_offset: 0,
        frame_crop_bottom_offset: 0,
    };
    assert_eq!(sps.width(), 1280);
    assert_eq!(sps.height(), 720);
}

#[test]
fn parser_sps_cropped_dimensions() {
    let mut sps = Sps {
        profile_idc: Profile::Main,
        level_idc: 40,
        seq_parameter_set_id: 0,
        chroma_format_idc: 1,
        bit_depth_luma: 8,
        bit_depth_chroma: 8,
        log2_max_frame_num: 4,
        pic_order_cnt_type: 2,
        log2_max_pic_order_cnt_lsb: 4,
        num_ref_frames: 1,
        gaps_in_frame_num_allowed: false,
        pic_width_in_mbs: 120,
        pic_height_in_map_units: 68,
        frame_mbs_only_flag: true,
        mb_adaptive_frame_field_flag: false,
        direct_8x8_inference_flag: true,
        frame_cropping_flag: true,
        frame_crop_left_offset: 0,
        frame_crop_right_offset: 0,
        frame_crop_top_offset: 0,
        frame_crop_bottom_offset: 4,
    };
    assert_eq!(sps.width(), 1920);
    assert_eq!(sps.height(), 1080);
    sps.frame_mbs_only_flag = false;
    sps.pic_height_in_map_units = 34;
    sps.frame_crop_bottom_offset = 2;
    assert_eq!(sps.height(), 1080);
}

#[test]
fn parser_sps_parse_baseline() {
    // profile 66, constraints 0, level 30, then ue fields:
    // sps_id 0 (1), log2_max_frame_num_minus4 0 (1), poc type 2 (011), num_ref_frames 1 (010),
    // gaps 0, width-1 = 0 (1), height-1 = 0 (1), frame_mbs_only 1, direct8x8 1, cropping 0
    let rbsp = [66u8, 0, 30, 0b1101_1010, 0b0111_1000, 0x80];
    let sps = Sps::parse(&rbsp).unwrap();
    assert_eq!(sps.profile_idc, Profile::Baseline);
    assert_eq!(sps.level_idc, 30);
    assert_eq!(sps.pic_order_cnt_type, 2);
    assert_eq!(sps.num_ref_frames, 1);
    assert_eq!(sps.width(), 16);
    assert_eq!(sps.height(), 16);
    assert!(Sps::parse(&rbsp[..3]).is_err());
}

#[test]
fn parser_pps_parse() {
    // pps_id 0, sps_id 0, entropy 1, poc-present 0, slice groups-1 0,
    // l0-1 0, l1-1 0, weighted 0, bipred 00, qp se 0, qs se 0, cq se 0, three flags 1 0 0
    let rbsp = [0b1110_1110, 0b0011_1100, 0b0000_0000];
    let pps = Pps::parse(&rbsp).unwrap();
    assert_eq!(pps.pic_parameter_set_id, 0);
    assert!(pps.entropy_coding_mode_flag);
    assert_eq!(pps.num_slice_groups, 1);
    assert_eq!(pps.pic_init_qp, 26);
    assert_eq!(pps.chroma_qp_index_offset, 0);
    assert!(pps.deblocking_filter_control_present_flag);
    assert!(!pps.constrained_intra_pred_flag);
    // two slice groups: unsupported
    let fmo = [0b1100_0100];
    assert!(Pps::parse(&fmo).is_err());
}
