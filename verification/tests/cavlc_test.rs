use rav::h264::cavlc::{decode_residual_block_cavlc, read_level_prefix};
use rav::h264::nal::BitReader;

#[test]
fn test_decode_empty_block() {
    let data = vec![0b000001_00];
    let mut br = BitReader::new(&data);
    let result = decode_residual_block_cavlc(&mut br, 16).unwrap();
    assert_eq!(result.len(), 16);
    assert!(result.iter().all(|&x| x == 0));
}

#[test]
fn test_read_level_prefix() {
    let data = vec![0b0001_0000];
    let mut br = BitReader::new(&data);
    let prefix = read_level_prefix(&mut br).unwrap();
    assert_eq!(prefix, 3);
}

#[test]
fn cavlc_truncated_token_is_error() {
    // Only four bits of data remain after the first: the six-bit token cannot be read.
    let data: Vec<u8> = vec![];
    let mut br = BitReader::new(&data);
    assert!(decode_residual_block_cavlc(&mut br, 16).is_err());
}
