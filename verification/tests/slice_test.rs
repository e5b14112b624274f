use rav::h264::rplr::{RplrCommand, RplrState};
use rav::h264::slice::SliceHeader;
use rav::h264::SliceType;

fn header(slice_type: SliceType) -> SliceHeader {
    SliceHeader {
        first_mb_in_slice: 0,
        slice_type,
        pic_parameter_set_id: 0,
        frame_num: 0,
        field_pic_flag: false,
        bottom_field_flag: false,
        idr_pic_id: None,
        pic_order_cnt_lsb: None,
        delta_pic_order_cnt_bottom: None,
        delta_pic_order_cnt: [0, 0],
        redundant_pic_cnt: 0,
        direct_spatial_mv_pred_flag: false,
        num_ref_idx_active_override_flag: false,
        num_ref_idx_l0_active: 1,
        num_ref_idx_l1_active: 1,
        rplr: RplrState::new(),
        weighted_pred_flag: false,
        weighted_bipred_idc: 0,
        slice_qp_delta: 0,
        disable_deblocking_filter_idc: 0,
        slice_alpha_c0_offset: 0,
        slice_beta_offset: 0,
    }
}

fn pack(bits: &str) -> Vec<u8> {
    let bits: Vec<u8> = bits.bytes().filter(|b| *b == b'0' || *b == b'1').map(|b| b - b'0').collect();
    let mut out = vec![0u8; (bits.len() + 7) / 8];
    for (i, b) in bits.iter().enumerate() {
        out[i / 8] |= b << (7 - i % 8);
    }
    out
}

#[test]
fn test_slice_header_structure() {
    let header = header(SliceType::I);
    assert_eq!(header.first_mb_in_slice, 0);
    assert_eq!(header.slice_type, SliceType::I);
    assert_eq!(header.pic_parameter_set_id, 0);
}

#[test]
fn slice_test_calc_slice_qp() {
    let mut header = header(SliceType::I);
    header.slice_qp_delta = 5;
    assert_eq!(header.calc_slice_qp(0), 31);
    assert_eq!(header.calc_slice_qp(10), 41);
}

#[test]
fn test_is_reference() {
    let mut i_header = header(SliceType::I);
    i_header.idr_pic_id = Some(0);
    i_header.pic_order_cnt_lsb = Some(0);
    assert!(i_header.is_reference());
    i_header.slice_type = SliceType::P;
    assert!(i_header.is_reference());
    i_header.slice_type = SliceType::B;
    assert!(!i_header.is_reference());
}

#[test]
fn test_rplr_integration() {
    let mut header = header(SliceType::P);
    header.frame_num = 5;
    header.pic_order_cnt_lsb = Some(10);
    header.num_ref_idx_active_override_flag = true;
    header.num_ref_idx_l0_active = 2;
    header.num_ref_idx_l1_active = 0;
    header.rplr = {
        let mut rplr = RplrState::new();
        rplr.add_list0_command(RplrCommand::ShortTermSub { abs_diff_pic_num: 1 });
        rplr.add_list0_command(RplrCommand::End);
        rplr
    };
    assert_eq!(header.slice_type, SliceType::P);
    assert!(header.rplr.list0_reordering);
    assert_eq!(header.rplr.list0_commands.len(), 2);
}

#[test]
fn slice_header_parses_p_slice() {
    // first_mb 0, P, PPS 0, frame_num 5 (4 bits), POC lsb 10 (8 bits), bottom 0,
    // override with 2 active refs, list 0 modification [sub 0, end], qp delta 0, deblocking off
    let data = pack("1 1 1 0101 00001010 1 1 010 1 1 1 00100 1 010");
    let h = SliceHeader::parse(&data).unwrap();
    assert_eq!(h.first_mb_in_slice, 0);
    assert_eq!(h.slice_type, SliceType::P);
    assert_eq!(h.pic_parameter_set_id, 0);
    assert_eq!(h.frame_num, 5);
    assert_eq!(h.idr_pic_id, None);
    assert_eq!(h.pic_order_cnt_lsb, Some(10));
    assert_eq!(h.delta_pic_order_cnt_bottom, Some(0));
    assert!(h.num_ref_idx_active_override_flag);
    assert_eq!(h.num_ref_idx_l0_active, 2);
    assert_eq!(h.num_ref_idx_l1_active, 1);
    assert!(h.rplr.list0_reordering);
    assert_eq!(h.rplr.list0_commands, vec![RplrCommand::ShortTermSub { abs_diff_pic_num: 0 }, RplrCommand::End]);
    assert!(!h.rplr.list1_reordering);
    assert_eq!(h.slice_qp_delta, 0);
    assert_eq!(h.disable_deblocking_filter_idc, 1);
    assert_eq!(h.slice_alpha_c0_offset, 0);
}

#[test]
fn slice_header_errors() {
    // PPS id 256
    assert!(SliceHeader::parse(&pack("1 011 00000000100000001 0000")).is_err());
    // data ends inside frame_num
    assert!(SliceHeader::parse(&pack("1 1 1 01")).is_err());
    // a modification idc above 3
    let bad = pack("1 1 1 0101 00001010 1 0 1 00101 1 1 010");
    assert!(SliceHeader::parse(&bad).is_err());
}

#[test]
fn slice_header_idr_i_slice_with_params() {
    // first_mb 0, I (2 = 011), PPS 0, frame_num 0 (4 bits), idr_pic_id 1 (010), POC type 2,
    // qp delta -1 (011), deblocking idc 0 (1), alpha 1 (010), beta -1 (011)
    let data = pack("1 011 1 0000 010 011 1 010 011");
    let h = SliceHeader::parse_with_params(&data, true, 4, 2, 4, false, 0).unwrap();
    assert_eq!(h.slice_type, SliceType::I);
    assert_eq!(h.idr_pic_id, Some(1));
    assert_eq!(h.pic_order_cnt_lsb, None);
    assert_eq!(h.slice_qp_delta, -1);
    assert_eq!(h.disable_deblocking_filter_idc, 0);
    assert_eq!(h.slice_alpha_c0_offset, 1);
    assert_eq!(h.slice_beta_offset, -1);
    assert!(!h.num_ref_idx_active_override_flag);
    assert!(h.rplr.list0_commands.is_empty());
}
