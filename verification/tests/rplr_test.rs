use rav::h264::rplr::{calc_max_pic_num, calc_pic_num, reorder_ref_pic_list, RefPicListEntry, RplrCommand, RplrState};

#[derive(Debug)]
struct TestPicture {
    id: u32,
}

#[test]
fn test_rplr_command_from_idc() {
    let cmd = RplrCommand::from_idc(0, 5).unwrap();
    assert_eq!(cmd, RplrCommand::ShortTermSub { abs_diff_pic_num: 5 });
    let cmd = RplrCommand::from_idc(1, 3).unwrap();
    assert_eq!(cmd, RplrCommand::ShortTermAdd { abs_diff_pic_num: 3 });
    let cmd = RplrCommand::from_idc(2, 2).unwrap();
    assert_eq!(cmd, RplrCommand::LongTerm { long_term_pic_num: 2 });
    let cmd = RplrCommand::from_idc(3, 0).unwrap();
    assert_eq!(cmd, RplrCommand::End);
}

#[test]
fn test_rplr_command_to_idc() {
    assert_eq!(RplrCommand::ShortTermSub { abs_diff_pic_num: 5 }.to_idc(), 0);
    assert_eq!(RplrCommand::ShortTermAdd { abs_diff_pic_num: 3 }.to_idc(), 1);
    assert_eq!(RplrCommand::LongTerm { long_term_pic_num: 2 }.to_idc(), 2);
    assert_eq!(RplrCommand::End.to_idc(), 3);
}

#[test]
fn test_rplr_state_creation() {
    let state = RplrState::new();
    assert!(!state.list0_reordering);
    assert!(!state.list1_reordering);
    assert_eq!(state.list0_commands.len(), 0);
    assert_eq!(state.list1_commands.len(), 0);
}

#[test]
fn test_rplr_state_add_commands() {
    let mut state = RplrState::new();
    state.add_list0_command(RplrCommand::ShortTermSub { abs_diff_pic_num: 1 });
    assert!(state.list0_reordering);
    assert_eq!(state.list0_commands.len(), 1);
    state.add_list1_command(RplrCommand::LongTerm { long_term_pic_num: 0 });
    assert!(state.list1_reordering);
    assert_eq!(state.list1_commands.len(), 1);
}

#[test]
fn test_reorder_ref_pic_list_no_reordering() {
    let pic1 = TestPicture { id: 1 };
    let pic2 = TestPicture { id: 2 };
    let default_list = vec![
        RefPicListEntry { picture: &pic1, pic_num: 0, long_term_pic_num: None, is_long_term: false },
        RefPicListEntry { picture: &pic2, pic_num: 1, long_term_pic_num: None, is_long_term: false },
    ];
    let commands: Vec<RplrCommand> = vec![];
    let result = reorder_ref_pic_list(default_list, &commands, 2, 16).unwrap();
    assert_eq!(result.len(), 2);
    assert_eq!(result[0].picture.id, 1);
    assert_eq!(result[1].picture.id, 2);
}

#[test]
fn test_reorder_ref_pic_list_short_term_sub() {
    let pic1 = TestPicture { id: 1 };
    let pic2 = TestPicture { id: 2 };
    let pic3 = TestPicture { id: 3 };
    let default_list = vec![
        RefPicListEntry { picture: &pic1, pic_num: 2, long_term_pic_num: None, is_long_term: false },
        RefPicListEntry { picture: &pic2, pic_num: 1, long_term_pic_num: None, is_long_term: false },
        RefPicListEntry { picture: &pic3, pic_num: 0, long_term_pic_num: None, is_long_term: false },
    ];
    let commands = vec![RplrCommand::ShortTermSub { abs_diff_pic_num: 1 }, RplrCommand::End];
    let result = reorder_ref_pic_list(default_list, &commands, 4, 16).unwrap();
    assert_eq!(result.len(), 3);
    assert_eq!(result[0].pic_num, 2);
    assert_eq!(result[0].picture.id, 1);
}

#[test]
fn test_reorder_ref_pic_list_long_term() {
    let pic1 = TestPicture { id: 1 };
    let pic2 = TestPicture { id: 2 };
    let default_list = vec![
        RefPicListEntry { picture: &pic1, pic_num: 0, long_term_pic_num: None, is_long_term: false },
        RefPicListEntry { picture: &pic2, pic_num: 0, long_term_pic_num: Some(0), is_long_term: true },
    ];
    let commands = vec![RplrCommand::LongTerm { long_term_pic_num: 0 }, RplrCommand::End];
    let result = reorder_ref_pic_list(default_list, &commands, 2, 16).unwrap();
    assert_eq!(result.len(), 2);
    assert!(result[0].is_long_term);
    assert_eq!(result[0].picture.id, 2);
}

#[test]
fn test_calc_pic_num() {
    assert_eq!(calc_pic_num(0, 16), 0);
    assert_eq!(calc_pic_num(5, 16), 5);
    assert_eq!(calc_pic_num(15, 16), 15);
}

#[test]
fn test_calc_max_pic_num() {
    assert_eq!(calc_max_pic_num(4), 16);
    assert_eq!(calc_max_pic_num(5), 32);
    assert_eq!(calc_max_pic_num(10), 1024);
}

#[test]
fn rplr_wrapping_add_and_missing_picture() {
    let pics = [TestPicture { id: 0 }, TestPicture { id: 1 }, TestPicture { id: 2 }];
    let list = vec![
        RefPicListEntry { picture: &pics[0], pic_num: 14, long_term_pic_num: None, is_long_term: false },
        RefPicListEntry { picture: &pics[1], pic_num: 0, long_term_pic_num: None, is_long_term: false },
        RefPicListEntry { picture: &pics[2], pic_num: 1, long_term_pic_num: None, is_long_term: false },
    ];
    // 15 + 0 + 1 = 16 wraps to 0, then 0 + 0 + 1 = 1
    let commands = vec![
        RplrCommand::ShortTermAdd { abs_diff_pic_num: 0 },
        RplrCommand::ShortTermAdd { abs_diff_pic_num: 0 },
    ];
    let result = reorder_ref_pic_list(list, &commands, 15, 16).unwrap();
    let ids: Vec<u32> = result.iter().map(|e| e.picture.id).collect();
    assert_eq!(ids, vec![1, 2, 0]);

    let list = vec![RefPicListEntry { picture: &pics[0], pic_num: 3, long_term_pic_num: None, is_long_term: false }];
    let commands = vec![RplrCommand::ShortTermSub { abs_diff_pic_num: 0 }];
    assert!(reorder_ref_pic_list(list, &commands, 9, 16).is_err());
    assert!(RplrCommand::from_idc(4, 0).is_err());
}
