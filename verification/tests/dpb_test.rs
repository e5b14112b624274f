use rav::frame::{Frame, PixelFormat};
use rav::h264::dpb::{Dpb, Mmco, MmcoCommand, RefPicture};

fn create_test_frame(width: usize, height: usize) -> Frame {
    Frame::new_video(width, height, PixelFormat::Yuv420p)
}

#[test]
fn test_dpb_creation() {
    let dpb = Dpb::new(4);
    assert_eq!(dpb.len(), 0);
    assert!(dpb.is_empty());
    assert_eq!(dpb.max_num_ref_frames(), 4);
}

#[test]
fn test_dpb_add_picture() {
    let mut dpb = Dpb::new(4);
    let pic = RefPicture::new(create_test_frame(16, 16), 0, 0);
    dpb.add_picture(pic).unwrap();
    assert_eq!(dpb.len(), 1);
}

#[test]
fn test_dpb_sliding_window() {
    let mut dpb = Dpb::new(2);
    for i in 0..3 {
        let pic = RefPicture::new(create_test_frame(16, 16), i, i as i32);
        dpb.add_picture(pic).unwrap();
    }
    assert_eq!(dpb.len(), 2);
}

#[test]
fn test_ref_pic_list_construction() {
    let mut dpb = Dpb::new(4);
    for poc in [0, 2, 4, 6] {
        let pic = RefPicture::new(create_test_frame(16, 16), poc, poc as i32);
        dpb.add_picture(pic).unwrap();
    }
    let list0 = dpb.construct_ref_pic_list_0(5);
    assert_eq!(list0.len(), 4);
    assert_eq!(list0[0].pic_order_cnt, 4);
    assert_eq!(list0[1].pic_order_cnt, 2);
    assert_eq!(list0[2].pic_order_cnt, 0);
    assert_eq!(list0[3].pic_order_cnt, 6);
}

#[test]
fn test_mmco_reset() {
    let mut dpb = Dpb::new(4);
    for i in 0..3 {
        let pic = RefPicture::new(create_test_frame(16, 16), i, i as i32);
        dpb.add_picture(pic).unwrap();
    }
    let commands = vec![MmcoCommand { operation: Mmco::Reset, param1: None, param2: None }];
    dpb.execute_mmco(&commands).unwrap();
    assert_eq!(dpb.len(), 0);
}

#[test]
fn test_long_term_marking() {
    let mut pic = RefPicture::new(create_test_frame(16, 16), 0, 0);
    pic.mark_as_long_term(1);
    assert!(pic.is_long_term);
    assert_eq!(pic.long_term_frame_idx, Some(1));
}

#[test]
fn dpb_list1_and_long_term_order() {
    let mut dpb = Dpb::new(8);
    for poc in [0, 2, 4, 6] {
        dpb.add_picture(RefPicture::new(create_test_frame(16, 16), poc, poc as i32)).unwrap();
    }
    let list1 = dpb.construct_ref_pic_list_1(3);
    let pocs: Vec<i32> = list1.iter().map(|p| p.pic_order_cnt).collect();
    assert_eq!(pocs, vec![4, 6, 2, 0]);
    let commands = vec![
        MmcoCommand { operation: Mmco::AssignLongTerm, param1: Some(6), param2: Some(3) },
        MmcoCommand { operation: Mmco::AssignLongTerm, param1: Some(2), param2: Some(1) },
        MmcoCommand { operation: Mmco::End, param1: None, param2: None },
        MmcoCommand { operation: Mmco::Reset, param1: None, param2: None },
    ];
    dpb.execute_mmco(&commands).unwrap();
    assert_eq!(dpb.len(), 4);
    let lt: Vec<u32> = dpb.get_long_term_list().iter().map(|p| p.frame_num).collect();
    assert_eq!(lt, vec![2, 6]);
    let st: Vec<i32> = dpb.get_short_term_list(0, true).iter().map(|p| p.pic_order_cnt).collect();
    assert_eq!(st, vec![4, 0]);
    assert_eq!(dpb.get_by_frame_num(4).unwrap().pic_order_cnt, 4);
    // short-term unused: frame 4 leaves the buffer
    let commands = vec![MmcoCommand { operation: Mmco::ShortTermUnused, param1: Some(4), param2: None }];
    dpb.execute_mmco(&commands).unwrap();
    assert_eq!(dpb.len(), 3);
    assert!(dpb.get_by_frame_num(4).is_none());
    // a limit of 2 drops the long-term picture with index 3
    let commands = vec![MmcoCommand { operation: Mmco::SetMaxLongTermIndex, param1: Some(2), param2: None }];
    dpb.execute_mmco(&commands).unwrap();
    assert_eq!(dpb.len(), 2);
    dpb.clear();
    assert!(dpb.is_empty());
}

#[test]
fn dpb_sliding_window_removes_smallest_frame_num() {
    let mut dpb = Dpb::new(2);
    dpb.add_picture(RefPicture::new(create_test_frame(16, 16), 5, 10)).unwrap();
    dpb.add_picture(RefPicture::new(create_test_frame(16, 16), 3, 6)).unwrap();
    dpb.add_picture(RefPicture::new(create_test_frame(16, 16), 7, 14)).unwrap();
    assert!(dpb.get_by_frame_num(3).is_none());
    assert!(dpb.get_by_frame_num(5).is_some());
    assert!(dpb.get_by_frame_num(7).is_some());
}

#[test]
fn mmco_leaves_short_and_long_term_references_only() {
    let mut dpb = Dpb::new(8);
    for n in 1..=4u32 {
        dpb.add_picture(RefPicture::new(create_test_frame(16, 16), n, n as i32 * 2)).unwrap();
    }
    let commands = vec![
        MmcoCommand { operation: Mmco::ShortTermUnused, param1: Some(1), param2: None },
        MmcoCommand { operation: Mmco::AssignLongTerm, param1: Some(3), param2: Some(0) },
        MmcoCommand { operation: Mmco::End, param1: None, param2: None },
    ];
    dpb.execute_mmco(&commands).unwrap();
    let short = dpb.get_short_term_list(0, false).len();
    let long = dpb.get_long_term_list().len();
    assert_eq!((dpb.len(), short, long), (3, 2, 1));
}
