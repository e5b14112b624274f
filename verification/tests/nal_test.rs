use rav::h264::nal::{extract_nal_units, find_nal_units, remove_emulation_prevention, BitReader, NalHeader};
use rav::h264::NalType;

#[test]
fn test_nal_header_parse() {
    let header = NalHeader::parse(0x67);
    assert_eq!(header.forbidden_zero_bit, 0);
    assert_eq!(header.nal_ref_idc, 3);
    assert_eq!(header.nal_unit_type, NalType::Sps);
}

#[test]
fn test_emulation_prevention_removal() {
    let input = vec![0x00, 0x00, 0x03, 0x01, 0x00, 0x00, 0x03, 0x02];
    let output = remove_emulation_prevention(&input).unwrap();
    assert_eq!(output, vec![0x00, 0x00, 0x01, 0x00, 0x00, 0x02]);
}

#[test]
fn test_bit_reader_read_bits() {
    let data = vec![0b10110011, 0b11000101];
    let mut reader = BitReader::new(&data);
    assert_eq!(reader.read_bits(4).unwrap(), 0b1011);
    assert_eq!(reader.read_bits(8).unwrap(), 0b00111100);
}

#[test]
fn test_exp_golomb_ue() {
    let data = vec![0b10110001];
    let mut reader = BitReader::new(&data);
    assert_eq!(reader.read_ue().unwrap(), 0);
    assert_eq!(reader.read_ue().unwrap(), 2);
}

#[test]
fn test_exp_golomb_se() {
    let data = vec![0b01100101];
    let mut reader = BitReader::new(&data);
    assert_eq!(reader.read_se().unwrap(), -1);
    assert_eq!(reader.read_se().unwrap(), -2);
}

#[test]
fn test_find_nal_units() {
    let data = vec![0x00, 0x00, 0x00, 0x01, 0x67, 0x00, 0x00, 0x01, 0x68];
    let positions = find_nal_units(&data);
    assert_eq!(positions, vec![0, 5]);
}

#[test]
fn nal_extract_units_splits_payloads() {
    let data = vec![0x00, 0x00, 0x00, 0x01, 0x67, 0xAA, 0x00, 0x00, 0x01, 0x68, 0xBB, 0xCC];
    let units = extract_nal_units(&data).unwrap();
    assert_eq!(units.len(), 2);
    assert_eq!(units[0].header.nal_unit_type, NalType::Sps);
    assert_eq!(units[0].rbsp, vec![0xAA]);
    assert_eq!(units[1].header.nal_unit_type, NalType::Pps);
    assert_eq!(units[1].rbsp, vec![0xBB, 0xCC]);
}

#[test]
fn nal_reader_errors_at_end() {
    let data = vec![0xFFu8];
    let mut reader = BitReader::new(&data);
    // a read past the end fails after taking the bits that were there
    assert!(reader.read_bits(9).is_err());
    assert!(reader.read_bit().is_err());
    let mut fresh = BitReader::new(&data);
    assert_eq!(fresh.read_bits(8).unwrap(), 0xFF);
    assert!(fresh.read_bit().is_err());
}
