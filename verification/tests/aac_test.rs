use rav::aac::adts::{find_sync, AdtsHeader};
use rav::aac::bitstream::BitReader;
use rav::aac::huffman::{decode_huffman, decode_scalefactor, decode_signed_pair, Codebook};
use rav::aac::parser::AudioSpecificConfig;
use rav::aac::spectral::{payload_offset, spectral_coefficients};
use rav::aac::{sample_rate_from_index, AacProfile, ChannelConfig};
use rav::error::Result;

fn generate_adts_header(frame_length: u16) -> Vec<u8> {
    let mut header = vec![0u8; 7];
    header[0] = 0xFF;
    header[1] = 0xF1;
    header[2] = 0x50;
    let fl_hi = ((frame_length >> 11) & 0x03) as u8;
    header[3] = 0x80 | fl_hi;
    header[4] = ((frame_length >> 3) & 0xFF) as u8;
    let fl_lo = ((frame_length & 0x07) as u8) << 5;
    header[5] = fl_lo | 0x1F;
    header[6] = 0xFC;
    header
}

#[test]
fn test_adts_parse_basic() {
    let data = [0xFF, 0xF1, 0x50, 0x80, 0x0C, 0x80, 0x00];
    let header = AdtsHeader::parse(&data).unwrap();
    assert_eq!(header.profile, AacProfile::Lc);
    assert_eq!(header.sample_rate, 44100);
    assert_eq!(header.channel_config, ChannelConfig::Stereo);
    assert_eq!(header.frame_length, 100);
    assert!(!header.has_crc);
}

#[test]
fn adts_test_adts_invalid_sync() {
    let data = [0x00, 0x00, 0x00, 0x00, 0x00, 0x00, 0x00];
    assert!(AdtsHeader::parse(&data).is_err());
}

#[test]
fn test_find_sync() {
    let mut data = vec![0x00; 20];
    data[10] = 0xFF;
    data[11] = 0xF1;
    data[12] = 0x50;
    data[13] = 0x80;
    data[14] = 0x0C;
    data[15] = 0x80;
    data[16] = 0x00;
    assert_eq!(find_sync(&data), Some(10));
}

#[test]
fn test_adts_header_parsing() -> Result<()> {
    let header = generate_adts_header(100);
    let parsed = AdtsHeader::parse(&header)?;
    assert_eq!(parsed.sample_rate, 44100);
    assert_eq!(parsed.frame_length, 100);
    assert!(!parsed.has_crc);
    Ok(())
}

#[test]
fn test_adts_sync_word_detection() {
    let mut data = vec![0x00; 20];
    data[10] = 0xFF;
    data[11] = 0xF1;
    data[12] = 0x50;
    data[13] = 0x80;
    data[14] = 0x0C;
    data[15] = 0x80;
    data[16] = 0x00;
    assert_eq!(find_sync(&data), Some(10));
}

#[test]
fn test_aac_config_parsing() -> Result<()> {
    let data = vec![0x12, 0x10];
    let config = AudioSpecificConfig::parse(&data)?;
    assert_eq!(config.sample_rate, 44100);
    assert_eq!(config.frame_length, 1024);
    Ok(())
}

#[test]
fn aac_decoder_test_test_adts_invalid_sync() {
    let invalid_header = vec![0x00, 0x00, 0x00, 0x00, 0x00, 0x00, 0x00];
    assert!(AdtsHeader::parse(&invalid_header).is_err());
}

#[test]
fn test_adts_frame_length_calculation() -> Result<()> {
    let test_cases = [(100, 100), (200, 200), (500, 500), (1000, 1000), (8191, 8191)];
    for (input_length, expected_length) in test_cases {
        let header = generate_adts_header(input_length);
        let parsed = AdtsHeader::parse(&header)?;
        assert_eq!(parsed.frame_length, expected_length);
    }
    Ok(())
}

#[test]
fn test_read_bits() {
    let data = vec![0xFF, 0x00, 0xAA];
    let mut reader = BitReader::new(&data);
    assert_eq!(reader.read_bits(4).unwrap(), 0xF);
    assert_eq!(reader.read_bits(4).unwrap(), 0xF);
    assert_eq!(reader.read_bits(8).unwrap(), 0x00);
    assert_eq!(reader.read_bits(2).unwrap(), 0b10);
    assert_eq!(reader.read_bits(2).unwrap(), 0b10);
}

#[test]
fn test_read_bool() {
    let data = vec![0xAA];
    let mut reader = BitReader::new(&data);
    assert!(reader.read_bool().unwrap());
    assert!(!reader.read_bool().unwrap());
    assert!(reader.read_bool().unwrap());
    assert!(!reader.read_bool().unwrap());
}

#[test]
fn test_read_signed() {
    let data = vec![0b11110000];
    let mut reader = BitReader::new(&data);
    assert_eq!(reader.read_signed(4).unwrap(), -1);
    assert_eq!(reader.read_signed(4).unwrap(), 0);
}

#[test]
fn test_byte_align() {
    let data = vec![0xFF, 0xAA];
    let mut reader = BitReader::new(&data);
    reader.read_bits(3).unwrap();
    assert_eq!(reader.bit_position(), 3);
    reader.byte_align();
    assert_eq!(reader.bit_position(), 0);
    assert_eq!(reader.byte_position(), 1);
}

#[test]
fn test_bits_remaining() {
    let data = vec![0xFF, 0xAA];
    let mut reader = BitReader::new(&data);
    assert_eq!(reader.bits_remaining(), 16);
    reader.read_bits(5).unwrap();
    assert_eq!(reader.bits_remaining(), 11);
}

#[test]
fn test_underrun() {
    let data = vec![0xFF];
    let mut reader = BitReader::new(&data);
    reader.read_bits(8).unwrap();
    assert!(reader.read_bits(1).is_err());
}

#[test]
fn test_codebook_from_index() {
    assert_eq!(Codebook::from_index(0), Codebook::Zero);
    assert_eq!(Codebook::from_index(5), Codebook::Five);
    assert_eq!(Codebook::from_index(11), Codebook::Eleven);
}

#[test]
fn test_codebook_dimensions() {
    assert_eq!(Codebook::Zero.dimensions(), 0);
    assert_eq!(Codebook::One.dimensions(), 4);
    assert_eq!(Codebook::Five.dimensions(), 2);
}

#[test]
fn test_decode_zero() {
    let data = vec![0xFF; 10];
    let mut reader = BitReader::new(&data);
    let mut output = [99i16; 8];
    let count = decode_huffman(&mut reader, Codebook::Zero, &mut output).unwrap();
    assert_eq!(count, 8);
    assert_eq!(output, [0; 8]);
}

#[test]
fn test_decode_signed_pair() {
    let data = vec![0b11110000, 0b00001111];
    let mut reader = BitReader::new(&data);
    let mut output = [0i16; 2];
    let count = decode_signed_pair(&mut reader, &mut output).unwrap();
    assert_eq!(count, 2);
    assert_eq!(output[0], -1);
    assert_eq!(output[1], 0);
}

#[test]
fn test_audio_specific_config_parse() {
    let data = vec![0x12, 0x10];
    let config = AudioSpecificConfig::parse(&data).unwrap();
    assert_eq!(config.profile, AacProfile::Lc);
    assert_eq!(config.sample_rate, 44100);
    assert_eq!(config.channel_config, ChannelConfig::Stereo);
    assert_eq!(config.frame_length, 1024);
}

#[test]
fn test_default_config() {
    let config = AudioSpecificConfig::default_lc();
    assert_eq!(config.profile, AacProfile::Lc);
    assert_eq!(config.sample_rate, 44100);
    assert_eq!(config.frame_length, 1024);
}

#[test]
fn aac_tables_and_names() {
    assert_eq!(sample_rate_from_index(0).unwrap(), 96000);
    assert_eq!(sample_rate_from_index(12).unwrap(), 7350);
    assert!(sample_rate_from_index(13).is_err());
    assert_eq!(ChannelConfig::SevenOne.channel_count(), 8);
    assert!(ChannelConfig::from_u8(0).is_err());
    assert_eq!(AacProfile::from_u8(5).as_str(), "HE-AAC");
    assert_eq!(AacProfile::from_u8(9), AacProfile::Unknown);
    assert!(Codebook::Eleven.is_signed());
    assert!(!Codebook::Seven.is_signed());
}

#[test]
fn aac_adts_payload_and_header_sizes() {
    let mut header = AdtsHeader::parse(&generate_adts_header(100)).unwrap();
    assert_eq!(header.header_size(), 7);
    assert_eq!(header.payload_size(), 93);
    header.has_crc = true;
    assert_eq!(header.header_size(), 9);
    header.frame_length = 5;
    assert_eq!(header.payload_size(), 0);
}

#[test]
fn aac_huffman_quads_escape_and_scalefactor() {
    // four 3-bit values 1, 2, 3, 4 = 001 010 011 100
    let data = [0b0010_1001, 0b1100_0000];
    let mut reader = BitReader::new(&data);
    let mut out = [0i16; 4];
    assert_eq!(decode_huffman(&mut reader, Codebook::One, &mut out).unwrap(), 4);
    assert_eq!(out, [1, 2, 3, 4]);
    // escape: -16 (10000) then escape bits 00011 -> -19; then 00001 -> 1
    let data = [0b1000_0000, 0b1100_0010];
    let mut reader = BitReader::new(&data);
    let mut out = [0i16; 2];
    assert_eq!(decode_huffman(&mut reader, Codebook::Eleven, &mut out).unwrap(), 2);
    assert_eq!(out, [-19, 1]);
    assert!(decode_huffman(&mut reader, Codebook::Seven, &mut out).is_err());
    let data = [0xFEu8];
    let mut reader = BitReader::new(&data);
    assert_eq!(decode_scalefactor(&mut reader).unwrap(), -2);
}

#[test]
fn spectral_payload_after_adts_header() {
    let data = vec![0xFF, 0xF1, 0x50, 0x80, 0x0C, 0x80, 0x00, 0x00, 0x00, 0x00, 0x00];
    assert_eq!(payload_offset(&data), 7);
    assert_eq!(payload_offset(&[0x00, 0x01, 0x02]), 0);
    assert_eq!(payload_offset(&[0x12, 0x34, 0x56, 0x78, 0x9A, 0xBC, 0xDE, 0xF0]), 0);
    let spectral = spectral_coefficients(&data[7..], 512);
    assert_eq!(spectral.len(), 512);
    assert!(spectral.iter().all(|&v| v == 0));
}

#[test]
fn spectral_codebook_one_groups() {
    // Codebook 1, then four 3-bit values 1, 2, 3, 4, then 5, 6, 7, 0.
    // Bits: 0001 001 010 011 100 101 110 111 000
    let data = vec![0b0001_0010, 0b1001_1100, 0b1011_1011, 0b1000_0000];
    let spectral = spectral_coefficients(&data, 10);
    assert_eq!(spectral, vec![1, 2, 3, 4, 5, 6, 7, 0, 0, 0]);
}

#[test]
fn spectral_codebook_five_signed_pairs() {
    // Codebook 5, then signed 4-bit values -1, 3, then 7, -8.
    let data = vec![0b0101_1111, 0b0011_0111, 0b1000_0000];
    let spectral = spectral_coefficients(&data, 5);
    assert_eq!(spectral, vec![-1, 3, 7, -8, 0]);
}
