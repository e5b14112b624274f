use rav::error::Result;
use rav::h264::{H264Decoder, Pps, Sps};

fn generate_baseline_sps() -> Vec<u8> {
    vec![0x67, 0x42, 0x00, 0x0D, 0xE8, 0x43, 0x8F, 0x13, 0x50, 0x00]
}

fn generate_baseline_pps() -> Vec<u8> {
    vec![0x68, 0xCE, 0x3C, 0x80]
}

fn generate_idr_slice() -> Vec<u8> {
    vec![0x65, 0x88, 0x84, 0x00, 0x00, 0x00, 0xFF, 0xFF, 0xFF, 0xFF]
}

#[test]
fn test_h264_decoder_creation() {
    let _decoder = H264Decoder::new();
}

#[test]
fn test_h264_parse_sps() -> Result<()> {
    let sps_data = generate_baseline_sps();
    let sps = Sps::parse(&sps_data[1..])?;
    assert_eq!(sps.level_idc, 13);
    Ok(())
}

#[test]
fn test_h264_parse_pps() -> Result<()> {
    let pps_data = generate_baseline_pps();
    let pps = Pps::parse(&pps_data[1..])?;
    assert_eq!(pps.pic_parameter_set_id, 0);
    assert_eq!(pps.seq_parameter_set_id, 0);
    assert!(!pps.entropy_coding_mode_flag);
    Ok(())
}

#[test]
fn test_h264_decoder_with_parameter_sets() -> Result<()> {
    let mut decoder = H264Decoder::new();
    let sps_data = generate_baseline_sps();
    let pps_data = generate_baseline_pps();
    let frames = decoder.decode(&sps_data)?;
    assert_eq!(frames.len(), 0);
    let frames = decoder.decode(&pps_data)?;
    assert_eq!(frames.len(), 0);
    Ok(())
}

#[test]
fn test_h264_decoder_baseline_profile() -> Result<()> {
    let mut decoder = H264Decoder::new();
    let sps_data = generate_baseline_sps();
    let pps_data = generate_baseline_pps();
    decoder.decode(&sps_data)?;
    decoder.decode(&pps_data)?;
    Ok(())
}

#[test]
fn test_h264_decoder_idr_slice() -> Result<()> {
    let mut decoder = H264Decoder::new();
    decoder.decode(&generate_baseline_sps())?;
    decoder.decode(&generate_baseline_pps())?;
    let idr_data = generate_idr_slice();
    let frames = decoder.decode(&idr_data)?;
    assert!(frames.len() <= 1);
    Ok(())
}

#[test]
fn test_h264_decoder_multiple_frames() -> Result<()> {
    let mut decoder = H264Decoder::new();
    decoder.decode(&generate_baseline_sps())?;
    decoder.decode(&generate_baseline_pps())?;
    for _ in 0..3 {
        let idr_data = generate_idr_slice();
        let frames = decoder.decode(&idr_data)?;
        assert!(frames.len() <= 1);
    }
    Ok(())
}

#[test]
fn test_h264_frame_dimensions() -> Result<()> {
    let mut decoder = H264Decoder::new();
    decoder.decode(&generate_baseline_sps())?;
    decoder.decode(&generate_baseline_pps())?;
    let sps_data = generate_baseline_sps();
    let sps = Sps::parse(&sps_data[1..])?;
    let expected_width = sps.width();
    let expected_height = sps.height();
    assert!(expected_width > 0);
    assert!(expected_height > 0);
    Ok(())
}

#[test]
fn test_h264_output_format() -> Result<()> {
    let mut decoder = H264Decoder::new();
    decoder.decode(&generate_baseline_sps())?;
    decoder.decode(&generate_baseline_pps())?;
    decoder.decode(&generate_idr_slice())?;
    let sps_data = generate_baseline_sps();
    let sps = Sps::parse(&sps_data[1..])?;
    assert!(sps.width() > 0);
    Ok(())
}

#[test]
fn test_h264_decoder_error_handling() {
    let mut decoder = H264Decoder::new();
    let idr_data = generate_idr_slice();
    let result = decoder.decode(&idr_data);
    match result {
        Err(_) => {}
        Ok(frames) => assert_eq!(frames.len(), 0),
    }
}

#[test]
fn test_h264_invalid_nal_unit() {
    let mut decoder = H264Decoder::new();
    let invalid_nal = vec![0x00, 0x00, 0x01, 0x1F, 0xFF, 0xFF];
    let result = decoder.decode(&invalid_nal);
    match result {
        Err(_) => {}
        Ok(_) => {}
    }
}

#[test]
fn test_h264_truncated_bitstream() {
    let mut decoder = H264Decoder::new();
    let truncated_sps = vec![0x67, 0x42];
    let result = decoder.decode(&truncated_sps);
    match result {
        Err(_) => {}
        Ok(frames) => assert_eq!(frames.len(), 0),
    }
}

#[test]
fn test_h264_profile_compatibility() -> Result<()> {
    let sps_data = generate_baseline_sps();
    let sps = Sps::parse(&sps_data[1..])?;
    assert_eq!(sps.level_idc, 13);
    assert!(sps.width() > 0);
    assert!(sps.height() > 0);
    Ok(())
}

#[test]
fn decoder_test_decoder_creation() {
    let decoder = H264Decoder::new();
    assert_eq!(decoder.sps.len(), 0);
    assert_eq!(decoder.pps.len(), 0);
}

#[test]
fn test_decoder_default() {
    let decoder = H264Decoder::default();
    assert!(decoder.get_dimensions().is_none());
}

#[test]
fn decoder_stores_parameter_sets_and_activates_on_slice() {
    let mut stream = vec![0x00, 0x00, 0x00, 0x01];
    stream.extend(generate_baseline_sps());
    stream.extend([0x00, 0x00, 0x00, 0x01]);
    stream.extend(generate_baseline_pps());
    let mut decoder = H264Decoder::new();
    let frames = decoder.decode(&stream).unwrap();
    assert!(frames.is_empty());
    assert_eq!(decoder.sps.len(), 1);
    assert_eq!(decoder.pps.len(), 1);
    assert!(decoder.get_dimensions().is_none());
}

#[test]
fn slice_without_parameter_sets_is_an_error() {
    let mut stream = vec![0x00, 0x00, 0x01];
    stream.extend(generate_idr_slice());
    let mut decoder = H264Decoder::new();
    assert!(decoder.decode(&stream).is_err());
}
