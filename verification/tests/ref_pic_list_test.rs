use rav::frame::{Frame, PixelFormat};
use rav::h264::dpb::{Dpb, RefPicture};
use rav::h264::ref_pic_list::{apply_rplr, construct_b_slice_lists, construct_p_slice_list0, RefPicListType, RefPicLists};
use rav::h264::rplr::RplrCommand;

fn frame() -> Frame {
    Frame::new_video(16, 16, PixelFormat::Yuv420p)
}

fn dpb_with(pocs: &[(u32, i32)]) -> Dpb {
    let mut dpb = Dpb::new(8);
    for &(num, poc) in pocs {
        dpb.add_picture(RefPicture::new(frame(), num, poc)).unwrap();
    }
    dpb
}

#[test]
fn test_ref_pic_lists_new() {
    let lists: RefPicLists = RefPicLists::new();
    assert!(lists.list0.is_empty());
    assert!(lists.list1.is_empty());
}

#[test]
fn test_ref_pic_lists_get() {
    let lists: RefPicLists = RefPicLists::new();
    assert_eq!(lists.get(RefPicListType::List0).len(), 0);
    assert_eq!(lists.get(RefPicListType::List1).len(), 0);
}

#[test]
fn test_ref_pic_list_type() {
    assert_eq!(RefPicListType::List0, RefPicListType::List0);
    assert_ne!(RefPicListType::List0, RefPicListType::List1);
}

#[test]
fn test_construct_p_slice_empty_dpb() {
    let dpb = Dpb::new(4);
    let list = construct_p_slice_list0(&dpb, 10, 256);
    assert!(list.is_empty());
}

#[test]
fn test_construct_b_slice_empty_dpb() {
    let dpb = Dpb::new(4);
    let lists = construct_b_slice_lists(&dpb, 10, 256);
    assert!(lists.list0.is_empty());
    assert!(lists.list1.is_empty());
}

#[test]
fn p_slice_list_descending_pic_num() {
    let dpb = dpb_with(&[(1, 2), (2, 8), (3, 4)]);
    let list = construct_p_slice_list0(&dpb, 4, 16);
    let nums: Vec<u32> = list.iter().map(|e| e.picture.frame_num).collect();
    assert_eq!(nums, vec![3, 2, 1]);
    assert_eq!(list[0].pic_num, Some(3));
    assert_eq!(list[0].long_term_pic_num, None);
    let dpb = dpb_with(&[(1, 4), (2, 2)]);
    let list = construct_p_slice_list0(&dpb, 3, 16);
    let nums: Vec<u32> = list.iter().map(|e| e.picture.frame_num).collect();
    assert_eq!(nums, vec![2, 1]);
}

#[test]
fn b_slice_lists_split_at_current_poc() {
    let dpb = dpb_with(&[(1, 2), (2, 8), (3, 4), (4, 10)]);
    let lists = construct_b_slice_lists(&dpb, 6, 16);
    let l0: Vec<i32> = lists.list0.iter().map(|e| e.picture.pic_order_cnt).collect();
    let l1: Vec<i32> = lists.list1.iter().map(|e| e.picture.pic_order_cnt).collect();
    assert_eq!(l0, vec![4, 2, 8, 10]);
    assert_eq!(l1, vec![8, 10, 4, 2]);
}

#[test]
fn lists_get_mut_and_apply_rplr() {
    let dpb = dpb_with(&[(1, 2)]);
    let mut lists = construct_b_slice_lists(&dpb, 0, 16);
    lists.get_mut(RefPicListType::List1).clear();
    assert_eq!(lists.get(RefPicListType::List1).len(), 0);
    assert_eq!(lists.get(RefPicListType::List0).len(), 1);
    let list0 = lists.list0.clone();
    let out = apply_rplr(list0, &[RplrCommand::End], 1, 16).unwrap();
    assert_eq!(out.len(), 1);
    assert_eq!(out[0].picture.pic_order_cnt, 2);
}
