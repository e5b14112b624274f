use rav::h264::cabac::binarization;
use rav::h264::cabac::binarization::{BinQueue, BinSource};
use rav::h264::cabac::{CabacContext, CabacDecoder};

#[test]
fn test_cabac_context_init() {
    let ctx = CabacContext::init(0, 26);
    assert!(ctx.state <= 63);
    assert!(ctx.mps <= 1);
}

#[test]
fn test_cabac_context_update_mps() {
    let mut ctx = CabacContext::new(0, 0);
    let initial_state = ctx.state;
    ctx.update(0);
    assert!(ctx.state >= initial_state);
}

#[test]
fn test_cabac_context_update_lps() {
    let mut ctx = CabacContext::new(10, 0);
    ctx.update(1);
    assert!(ctx.state <= 10);
}

#[test]
fn test_cabac_decoder_creation() {
    let data = vec![0xFF, 0xFF, 0xFF];
    let decoder = CabacDecoder::new(&data);
    assert!(decoder.is_ok());
}

#[test]
fn test_cabac_decoder_insufficient_data() {
    let data = vec![0xFF];
    let decoder = CabacDecoder::new(&data);
    assert!(decoder.is_err());
}

#[test]
fn test_binarization_unary() {
    let mut bins = BinQueue::new(vec![1, 1, 1, 0]);
    let result = binarization::decode_unary(10, &mut bins);
    assert_eq!(result.unwrap(), 3);
}

#[test]
fn test_binarization_truncated_unary_zero() {
    let result = binarization::decode_truncated_unary(0, &mut BinQueue::new(vec![0]));
    assert_eq!(result.unwrap(), 0);
}

#[test]
fn test_binarization_exp_golomb() {
    let mut bins = BinQueue::new(vec![1]);
    let result = binarization::decode_exp_golomb(&mut bins);
    assert_eq!(result.unwrap(), 0);
}

#[test]
fn context_init_is_state_62_mps_0() {
    for qp in [0, 26, 51, -12] {
        let c = CabacContext::init(5, qp);
        assert_eq!((c.state, c.mps), (62, 0));
    }
}

#[test]
fn context_new_caps_state_and_masks_mps() {
    let c = CabacContext::new(200, 3);
    assert_eq!((c.state, c.mps), (63, 1));
}

#[test]
fn context_update_tables() {
    // MPS path: state 10 -> 11.
    let mut c = CabacContext::new(10, 1);
    c.update(1);
    assert_eq!((c.state, c.mps), (11, 1));
    // LPS path at state 0 swaps the MPS and stays at 0.
    let mut c = CabacContext::new(0, 0);
    c.update(1);
    assert_eq!((c.state, c.mps), (0, 1));
    // LPS path at state 20 goes to 16.
    let mut c = CabacContext::new(20, 0);
    c.update(1);
    assert_eq!((c.state, c.mps), (16, 0));
}

#[test]
fn decision_in_state_zero() {
    // Offset 0x1FF (all ones), range 0x1FE: state 0, qRangeIdx 3 gives LPS range 240,
    // the MPS sub-range 270 is reached, so the LPS (1) is decoded.
    let data = vec![0xFF, 0xFF, 0xFF, 0xFF];
    let mut d = CabacDecoder::new(&data).unwrap();
    let mut c = CabacContext::new(0, 0);
    assert_eq!(d.decode_decision(&mut c).unwrap(), 1);
    assert_eq!((c.state, c.mps), (0, 1));
}

#[test]
fn bypass_bins_follow_the_data() {
    // Offset starts at 0; a 1 bit makes the doubled offset reach 1, below the range: 0.
    let data = vec![0x00, 0x00, 0xFF];
    let mut d = CabacDecoder::new(&data).unwrap();
    assert_eq!(d.decode_bypass().unwrap(), 0);
}

#[test]
fn terminate_on_large_offset() {
    let data = vec![0xFF, 0xFF, 0xFF];
    let mut d = CabacDecoder::new(&data).unwrap();
    assert_eq!(d.decode_terminate().unwrap(), 1);
}

#[test]
fn exp_golomb_values() {
    // 0 0 1 then suffix 1 0: 2^2 - 1 + 2 = 5.
    let mut bins = BinQueue::new(vec![0u8, 0, 1, 1, 0]);
    let result = binarization::decode_exp_golomb(&mut bins);
    assert_eq!(result.unwrap(), 5);
}

#[test]
fn unary_stops_at_max() {
    let result = binarization::decode_unary(3, &mut BinQueue::new(vec![1, 1, 1, 1]));
    assert_eq!(result.unwrap(), 3);
    let result = binarization::decode_truncated_unary(2, &mut BinQueue::new(vec![1, 1, 1]));
    assert_eq!(result.unwrap(), 2);
}

#[test]
fn exp_golomb_prefix_too_long_is_error() {
    let result = binarization::decode_exp_golomb(&mut BinQueue::new(vec![0; 40]));
    assert!(result.is_err());
}

#[test]
fn binarization_consumes_exactly_its_bins() {
    let mut q = BinQueue::new(vec![1, 1, 0, 1]);
    assert_eq!(binarization::decode_unary(5, &mut q).unwrap(), 2);
    assert_eq!(q.next_bin().unwrap(), 1);
    assert!(q.next_bin().is_err());
    // running out before a zero bin fails
    assert!(binarization::decode_unary(5, &mut BinQueue::new(vec![1, 1])).is_err());
    // Exp-Golomb: 0 1 then suffix 1 gives 2^1 - 1 + 1 = 2, leaving the rest
    let mut q = BinQueue::new(vec![0, 1, 1, 0]);
    assert_eq!(binarization::decode_exp_golomb(&mut q).unwrap(), 2);
    assert_eq!(q.next_bin().unwrap(), 0);
    // a suffix cut short fails
    assert!(binarization::decode_exp_golomb(&mut BinQueue::new(vec![0, 0, 1, 1])).is_err());
}
