use rav::h264::nal_stream::{find_start_code, NalFormat, NalStreamProcessor};

#[test]
fn test_find_start_code() {
    let data = vec![0x00, 0x00, 0x01, 0x67, 0x42];
    assert_eq!(find_start_code(&data), Some(0));
    let data = vec![0x12, 0x34, 0x00, 0x00, 0x01, 0x68];
    assert_eq!(find_start_code(&data), Some(2));
    let data = vec![0x12, 0x34, 0x56];
    assert_eq!(find_start_code(&data), None);
}

#[test]
fn test_annex_b_extraction() {
    let mut processor = NalStreamProcessor::new(NalFormat::AnnexB);
    let data = vec![0x00, 0x00, 0x01, 0x67, 0x42, 0x00, 0x1F, 0x00, 0x00, 0x01, 0x68, 0xCE, 0x3C, 0x80];
    let nal_units = processor.process(&data).unwrap();
    assert_eq!(nal_units.len(), 1);
    assert_eq!(nal_units[0], vec![0x67, 0x42, 0x00, 0x1F]);
    let data2 = vec![0x00, 0x00, 0x01, 0x65, 0x88];
    let nal_units2 = processor.process(&data2).unwrap();
    assert_eq!(nal_units2.len(), 1);
    assert_eq!(nal_units2[0], vec![0x68, 0xCE, 0x3C, 0x80]);
}

#[test]
fn test_annex_b_4byte_start_code() {
    let mut processor = NalStreamProcessor::new(NalFormat::AnnexB);
    let data = vec![0x00, 0x00, 0x00, 0x01, 0x67, 0x42, 0x00, 0x1F];
    let nal_units = processor.process(&data).unwrap();
    assert_eq!(nal_units.len(), 0);
    let data2 = vec![0x00, 0x00, 0x01, 0x68, 0xCE];
    let nal_units2 = processor.process(&data2).unwrap();
    assert_eq!(nal_units2.len(), 1);
    assert_eq!(nal_units2[0], vec![0x67, 0x42, 0x00, 0x1F]);
}

#[test]
fn test_avcc_extraction() {
    let mut processor = NalStreamProcessor::new(NalFormat::Avcc { length_size: 4 });
    let data = vec![
        0x00, 0x00, 0x00, 0x04, 0x67, 0x42, 0x00, 0x1F, 0x00, 0x00, 0x00, 0x04, 0x68, 0xCE, 0x3C, 0x80,
    ];
    let nal_units = processor.process(&data).unwrap();
    assert_eq!(nal_units.len(), 2);
    assert_eq!(nal_units[0], vec![0x67, 0x42, 0x00, 0x1F]);
    assert_eq!(nal_units[1], vec![0x68, 0xCE, 0x3C, 0x80]);
}

#[test]
fn test_annex_b_to_avcc() {
    let annex_b = vec![0x00, 0x00, 0x01, 0x67, 0x42, 0x00, 0x00, 0x01, 0x68, 0xCE];
    let avcc = NalStreamProcessor::annex_b_to_avcc(&annex_b, 4).unwrap();
    let expected = vec![0x00, 0x00, 0x00, 0x02, 0x67, 0x42, 0x00, 0x00, 0x00, 0x02, 0x68, 0xCE];
    assert_eq!(avcc, expected);
}

#[test]
fn test_avcc_to_annex_b() {
    let avcc = vec![0x00, 0x00, 0x00, 0x02, 0x67, 0x42, 0x00, 0x00, 0x00, 0x02, 0x68, 0xCE];
    let annex_b = NalStreamProcessor::avcc_to_annex_b(&avcc, 4).unwrap();
    let expected = vec![0x00, 0x00, 0x00, 0x01, 0x67, 0x42, 0x00, 0x00, 0x00, 0x01, 0x68, 0xCE];
    assert_eq!(annex_b, expected);
}

#[test]
fn test_incomplete_nal_buffering() {
    let mut processor = NalStreamProcessor::new(NalFormat::Avcc { length_size: 4 });
    let chunk1 = vec![0x00, 0x00, 0x00, 0x04];
    let nal_units = processor.process(&chunk1).unwrap();
    assert_eq!(nal_units.len(), 0);
    let chunk2 = vec![0x67, 0x42, 0x00, 0x1F];
    let nal_units = processor.process(&chunk2).unwrap();
    assert_eq!(nal_units.len(), 1);
    assert_eq!(nal_units[0], vec![0x67, 0x42, 0x00, 0x1F]);
}

#[test]
fn test_nal_format_equality() {
    assert_eq!(NalFormat::AnnexB, NalFormat::AnnexB);
    assert_eq!(NalFormat::Avcc { length_size: 4 }, NalFormat::Avcc { length_size: 4 });
    assert_ne!(NalFormat::Avcc { length_size: 2 }, NalFormat::Avcc { length_size: 4 });
}

#[test]
fn test_reset() {
    let mut processor = NalStreamProcessor::new(NalFormat::AnnexB);
    let data = vec![0x00, 0x00, 0x01, 0x67];
    let _ = processor.process(&data);
    assert!(!processor.buffer.is_empty());
    processor.reset();
    assert!(processor.buffer.is_empty());
}

#[test]
fn nal_stream_length_sizes_and_errors() {
    let annex_b = vec![0x00, 0x00, 0x01, 0x67, 0x42, 0x00, 0x00, 0x01, 0x68];
    assert_eq!(NalStreamProcessor::annex_b_to_avcc(&annex_b, 1).unwrap(), vec![2, 0x67, 0x42, 1, 0x68]);
    assert_eq!(NalStreamProcessor::annex_b_to_avcc(&annex_b, 2).unwrap(), vec![0, 2, 0x67, 0x42, 0, 1, 0x68]);
    assert!(NalStreamProcessor::annex_b_to_avcc(&annex_b, 3).is_err());
    // a 300-byte unit does not fit a 1-byte length
    let mut long = vec![0x00, 0x00, 0x01];
    long.extend(std::iter::repeat(0x55).take(300));
    assert!(NalStreamProcessor::annex_b_to_avcc(&long, 1).is_err());
    assert_eq!(NalStreamProcessor::annex_b_to_avcc(&long, 2).unwrap()[0..2], [1, 44]);
    // AVCC with 2-byte lengths; a unit running past the end fails
    assert_eq!(NalStreamProcessor::avcc_to_annex_b(&[0, 1, 0x09], 2).unwrap(), vec![0, 0, 0, 1, 0x09]);
    assert!(NalStreamProcessor::avcc_to_annex_b(&[0, 5, 0x09], 2).is_err());
    assert!(NalStreamProcessor::avcc_to_annex_b(&[0, 1, 0x09], 3).is_err());
    // an invalid length size in the processor
    let mut p = NalStreamProcessor::new(NalFormat::Avcc { length_size: 3 });
    assert!(p.process(&[0, 0, 1, 5]).is_err());
    // data without a start code stays in the buffer
    let mut q = NalStreamProcessor::new(NalFormat::AnnexB);
    assert!(q.process(&[1, 2, 3]).unwrap().is_empty());
    assert_eq!(q.buffer, vec![1, 2, 3]);
}

#[test]
fn annex_b_to_avcc_undoes_avcc_to_annex_b() {
    let avcc = vec![0, 0, 0, 2, 0x67, 0x42, 0, 0, 0, 3, 0x68, 0xCE, 0x3C];
    let annex_b = NalStreamProcessor::avcc_to_annex_b(&avcc, 4).unwrap();
    assert_eq!(annex_b, vec![0, 0, 0, 1, 0x67, 0x42, 0, 0, 0, 1, 0x68, 0xCE, 0x3C]);
    assert_eq!(NalStreamProcessor::annex_b_to_avcc(&annex_b, 4).unwrap(), avcc);
    assert_eq!(
        NalStreamProcessor::annex_b_to_avcc(&[0, 0, 0, 1, 0x67, 0x42], 4).unwrap(),
        vec![0, 0, 0, 2, 0x67, 0x42]
    );
}
