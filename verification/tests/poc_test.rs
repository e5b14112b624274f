use rav::h264::poc::{calculate_poc, get_frame_poc, PocState, PocType};

#[test]
fn test_poc_type_from_u8() {
    assert_eq!(PocType::from_u8(0).unwrap(), PocType::Type0);
    assert_eq!(PocType::from_u8(1).unwrap(), PocType::Type1);
    assert_eq!(PocType::from_u8(2).unwrap(), PocType::Type2);
    assert!(PocType::from_u8(3).is_err());
}

#[test]
fn test_poc_state_creation() {
    let state = PocState::new(PocType::Type0, 4);
    assert_eq!(state.poc_type, PocType::Type0);
    assert_eq!(state.log2_max_poc_lsb, 8);
    assert_eq!(state.prev_poc_msb, 0);
    assert_eq!(state.prev_poc_lsb, 0);
}

#[test]
fn test_poc_state_reset() {
    let mut state = PocState::new(PocType::Type0, 4);
    state.prev_poc_msb = 256;
    state.prev_poc_lsb = 10;
    state.prev_frame_num = 5;
    state.reset();
    assert_eq!(state.prev_poc_msb, 0);
    assert_eq!(state.prev_poc_lsb, 0);
    assert_eq!(state.prev_frame_num, 0);
}

#[test]
fn test_calculate_poc_idr() {
    let mut state = PocState::new(PocType::Type0, 4);
    let (top, bottom) = calculate_poc(&mut state, 0, Some(0), true, 256).unwrap();
    assert_eq!(top, 0);
    assert_eq!(bottom, 0);
}

#[test]
fn test_calculate_poc_type0_simple() {
    let mut state = PocState::new(PocType::Type0, 4);
    let (top, bottom) = calculate_poc(&mut state, 1, Some(2), false, 256).unwrap();
    assert_eq!(top, 2);
    assert_eq!(bottom, 2);
    assert_eq!(state.prev_poc_lsb, 2);
}

#[test]
fn test_calculate_poc_type0_wrap() {
    let mut state = PocState::new(PocType::Type0, 4);
    state.prev_poc_lsb = 250;
    state.prev_poc_msb = 0;
    let (top, _) = calculate_poc(&mut state, 2, Some(2), false, 256).unwrap();
    assert_eq!(top, 256 + 2);
}

#[test]
fn test_calculate_poc_type0_backward() {
    let mut state = PocState::new(PocType::Type0, 4);
    state.prev_poc_lsb = 10;
    state.prev_poc_msb = 0;
    let (top, _) = calculate_poc(&mut state, 1, Some(200), false, 256).unwrap();
    assert_eq!(top, -256 + 200);
}

#[test]
fn test_calculate_poc_type2_simple() {
    let mut state = PocState::new(PocType::Type2, 0);
    let (top, bottom) = calculate_poc(&mut state, 0, None, false, 256).unwrap();
    assert_eq!(top, 0);
    assert_eq!(bottom, 0);
    let (top, bottom) = calculate_poc(&mut state, 1, None, false, 256).unwrap();
    assert_eq!(top, 2);
    assert_eq!(bottom, 2);
    let (top, bottom) = calculate_poc(&mut state, 5, None, false, 256).unwrap();
    assert_eq!(top, 10);
    assert_eq!(bottom, 10);
}

#[test]
fn test_calculate_poc_type2_wrap() {
    let mut state = PocState::new(PocType::Type2, 0);
    state.prev_frame_num = 255;
    state.prev_frame_num_offset = 0;
    let (top, _) = calculate_poc(&mut state, 0, None, false, 256).unwrap();
    assert_eq!(top, 512);
}

#[test]
fn test_calculate_poc_type1_simple() {
    let mut state = PocState::new(PocType::Type1, 0);
    let (top, bottom) = calculate_poc(&mut state, 0, None, false, 256).unwrap();
    assert_eq!(top, 0);
    assert_eq!(bottom, 0);
    let (top, bottom) = calculate_poc(&mut state, 1, None, false, 256).unwrap();
    assert_eq!(top, 2);
    assert_eq!(bottom, 2);
}

#[test]
fn test_get_frame_poc() {
    assert_eq!(get_frame_poc(10, 10), 10);
    assert_eq!(get_frame_poc(10, 12), 10);
    assert_eq!(get_frame_poc(15, 13), 13);
}

#[test]
fn test_poc_type0_requires_lsb() {
    let mut state = PocState::new(PocType::Type0, 4);
    let result = calculate_poc(&mut state, 1, None, false, 256);
    assert!(result.is_err());
}

#[test]
fn test_poc_state_update_sequence() {
    let mut state = PocState::new(PocType::Type0, 4);
    calculate_poc(&mut state, 0, Some(0), true, 256).unwrap();
    assert_eq!(state.prev_poc_lsb, 0);
    calculate_poc(&mut state, 1, Some(2), false, 256).unwrap();
    assert_eq!(state.prev_poc_lsb, 2);
    calculate_poc(&mut state, 2, Some(4), false, 256).unwrap();
    assert_eq!(state.prev_poc_lsb, 4);
}

#[test]
fn test_poc_type2_state_update() {
    let mut state = PocState::new(PocType::Type2, 0);
    calculate_poc(&mut state, 0, None, true, 256).unwrap();
    calculate_poc(&mut state, 1, None, false, 256).unwrap();
    calculate_poc(&mut state, 2, None, false, 256).unwrap();
    assert_eq!(state.prev_frame_num, 2);
}

#[test]
fn poc_idr_clears_state() {
    let mut state = PocState::new(PocType::Type2, 0);
    state.prev_frame_num = 9;
    state.prev_frame_num_offset = 512;
    state.prev_poc_msb = 7;
    let r = calculate_poc(&mut state, 3, None, true, 256).unwrap();
    assert_eq!(r, (0, 0));
    assert_eq!(state.prev_frame_num, 0);
    assert_eq!(state.prev_frame_num_offset, 0);
    assert_eq!(state.prev_poc_msb, 0);
}

#[test]
fn poc_type0_mmco5_keeps_previous() {
    let mut state = PocState::new(PocType::Type0, 4);
    state.prev_has_mmco5 = true;
    let (top, _) = calculate_poc(&mut state, 1, Some(6), false, 256).unwrap();
    assert_eq!(top, 6);
    assert_eq!(state.prev_poc_lsb, 0);
}
