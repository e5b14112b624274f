use rav::h264::cabac::CabacDecoder;
use rav::h264::macroblock::{
    decode_cbp_cabac, decode_i_macroblock, decode_mb_type_b, decode_mb_type_b_cabac, decode_mb_type_i,
    decode_mb_type_i_cabac, decode_mb_type_p, decode_mb_type_p_cabac, decode_mvd_cabac, decode_p_macroblock,
    decode_residual_block_8x8_cabac, decode_residual_block_cabac, BMbType, CabacMbContext, IMbType, PMbType,
};
use rav::h264::nal::BitReader;
use rav::h264::predict::Intra16x16Mode;

#[test]
fn test_decode_mb_type_i4x4() {
    let data = vec![0b1_0000000];
    let mut br = BitReader::new(&data);
    let mb_type = decode_mb_type_i(&mut br).unwrap();
    assert_eq!(mb_type, IMbType::I4x4);
}

#[test]
fn test_decode_mb_type_i16x16() {
    let data = vec![0b01_000000];
    let mut br = BitReader::new(&data);
    let mb_type = decode_mb_type_i(&mut br).unwrap();
    match mb_type {
        IMbType::I16x16 { pred_mode, .. } => {
            assert_eq!(pred_mode, Intra16x16Mode::Vertical);
        }
        _ => panic!("Expected I_16x16"),
    }
}

#[test]
fn test_decode_mb_type_b_direct() {
    let data = vec![0b1_0000000];
    let mut br = BitReader::new(&data);
    let mb_type = decode_mb_type_b(&mut br).unwrap();
    assert_eq!(mb_type, BMbType::BDirect16x16);
}

#[test]
fn test_decode_mb_type_b_l0() {
    let data = vec![0b01_000000];
    let mut br = BitReader::new(&data);
    let mb_type = decode_mb_type_b(&mut br).unwrap();
    assert_eq!(mb_type, BMbType::BL016x16);
}

#[test]
fn test_decode_mb_type_b_bi() {
    let data = vec![0b00100_000];
    let mut br = BitReader::new(&data);
    let mb_type = decode_mb_type_b(&mut br).unwrap();
    assert_eq!(mb_type, BMbType::BBi16x16);
}

#[test]
fn test_cabac_mb_context_init() {
    let ctx = CabacMbContext::init(26);
    assert!(ctx.mb_type_i[0].state <= 63);
    assert!(ctx.mb_type_p[0].state <= 63);
    assert!(ctx.mb_type_b[0].state <= 63);
}

#[test]
fn test_cabac_decode_mb_type_i_4x4() {
    let data = vec![0x00, 0x00, 0xFF];
    let mut decoder = CabacDecoder::new(&data).unwrap();
    let mut ctx = CabacMbContext::init(26);
    let mb_type = decode_mb_type_i_cabac(&mut decoder, &mut ctx).unwrap();
    assert_eq!(mb_type, IMbType::I4x4);
}

#[test]
fn test_cabac_decode_mb_type_p() {
    let data = vec![0x00, 0x00, 0xFF];
    let mut decoder = CabacDecoder::new(&data).unwrap();
    let mut ctx = CabacMbContext::init(26);
    let mb_type = decode_mb_type_p_cabac(&mut decoder, &mut ctx).unwrap();
    assert_eq!(mb_type, PMbType::P16x16);
}

#[test]
fn test_cabac_decode_mb_type_b_direct() {
    let data = vec![0x00, 0x00, 0xFF];
    let mut decoder = CabacDecoder::new(&data).unwrap();
    let mut ctx = CabacMbContext::init(26);
    let mb_type = decode_mb_type_b_cabac(&mut decoder, &mut ctx).unwrap();
    assert_eq!(mb_type, BMbType::BDirect16x16);
}

#[test]
fn test_cabac_decode_cbp() {
    let data = vec![0x00, 0x00, 0xFF];
    let mut decoder = CabacDecoder::new(&data).unwrap();
    let mut ctx = CabacMbContext::init(26);
    let _ = decode_cbp_cabac(&mut decoder, &mut ctx);
}

#[test]
fn test_cabac_decode_mvd() {
    let data = vec![0x00, 0x00, 0xFF];
    let mut decoder = CabacDecoder::new(&data).unwrap();
    let mut ctx = CabacMbContext::init(26);
    let (mvd_x, mvd_y) = decode_mvd_cabac(&mut decoder, &mut ctx, 0).unwrap();
    assert_eq!(mvd_x, 0);
    assert_eq!(mvd_y, 0);
}

#[test]
fn test_cabac_decode_residual_4x4() {
    let data = vec![0x00, 0x00, 0xFF];
    let mut decoder = CabacDecoder::new(&data).unwrap();
    let mut ctx = CabacMbContext::init(26);
    let coeffs = decode_residual_block_cabac(&mut decoder, &mut ctx, 16).unwrap();
    assert_eq!(coeffs.len(), 16);
    assert_eq!(coeffs[0], 0);
}

#[test]
fn test_cabac_decode_residual_8x8() {
    let data = vec![0x00, 0x00, 0xFF];
    let mut decoder = CabacDecoder::new(&data).unwrap();
    let mut ctx = CabacMbContext::init(26);
    let coeffs = decode_residual_block_8x8_cabac(&mut decoder, &mut ctx).unwrap();
    assert_eq!(coeffs.len(), 64);
}

#[test]
fn test_cabac_coefficient_contexts_initialized() {
    let ctx = CabacMbContext::init(26);
    assert!(ctx.coded_block_flag[0].state <= 63);
    assert!(ctx.significant_coeff_flag[0].state <= 63);
    assert!(ctx.last_significant_coeff_flag[0].state <= 63);
    assert!(ctx.coeff_abs_level_minus1[0].state <= 63);
}

#[test]
fn cabac_cbp_zero_on_zero_data() {
    let data = vec![0x00, 0x00, 0xFF];
    let mut decoder = CabacDecoder::new(&data).unwrap();
    let mut ctx = CabacMbContext::init(26);
    assert_eq!(decode_cbp_cabac(&mut decoder, &mut ctx).unwrap(), 0);
}

#[test]
fn i_mb_type_values() {
    // ue(25) = 000011010 is I_PCM; ue(26) is invalid.
    let data = vec![0b0000_1101, 0b0000_0000];
    let mut br = BitReader::new(&data);
    assert_eq!(decode_mb_type_i(&mut br).unwrap(), IMbType::IPcm);
    // ue(12) = 0001101: I_16x16, (12-1)%4 = 3 Plane, (12-1)/4 = 2 -> cbp 0x10.
    let data = vec![0b0001_1010];
    let mut br = BitReader::new(&data);
    assert_eq!(
        decode_mb_type_i(&mut br).unwrap(),
        IMbType::I16x16 { pred_mode: Intra16x16Mode::Plane, coded_block_pattern: 0x10, qp_delta: 0 }
    );
    // ue(26) = 000011011.
    let data = vec![0b0000_1101, 0b1000_0000];
    let mut br = BitReader::new(&data);
    assert!(decode_mb_type_i(&mut br).is_err());
}

#[test]
fn p_mb_type_values() {
    // ue(4) = 00101 -> P_8x8ref0.
    let data = vec![0b0010_1000];
    let mut br = BitReader::new(&data);
    assert_eq!(decode_mb_type_p(&mut br).unwrap(), PMbType::P8x8ref0);
    // ue(5) = 00110 -> intra I_4x4.
    let data = vec![0b0011_0000];
    let mut br = BitReader::new(&data);
    assert_eq!(decode_mb_type_p(&mut br).unwrap(), PMbType::PIntra { intra_type: IMbType::I4x4 });
    // ue(40) = 00000101001 -> past I_16x16: I_PCM.
    let data = vec![0b0000_0101, 0b0010_0000];
    let mut br = BitReader::new(&data);
    assert_eq!(decode_mb_type_p(&mut br).unwrap(), PMbType::PIntra { intra_type: IMbType::IPcm });
}

#[test]
fn b_mb_type_intra_gives_direct() {
    // ue(22) = 000010111 -> B_8x8; ue(23) = 000011000 -> direct.
    let data = vec![0b0000_1011, 0b1000_0000];
    let mut br = BitReader::new(&data);
    assert_eq!(decode_mb_type_b(&mut br).unwrap(), BMbType::B8x8);
    let data = vec![0b0000_1100, 0b0000_0000];
    let mut br = BitReader::new(&data);
    assert_eq!(decode_mb_type_b(&mut br).unwrap(), BMbType::BDirect16x16);
}

#[test]
fn ipcm_macroblock_reads_raw_samples() {
    let mut data = vec![0u8; 1 + 384];
    data[0] = 0b1000_0000; // one bit read before, then alignment skips the rest
    for i in 0..256 {
        data[1 + i] = i as u8;
    }
    for i in 0..64 {
        data[1 + 256 + 2 * i] = 10;
        data[1 + 256 + 2 * i + 1] = 20;
    }
    let mut br = BitReader::new(&data);
    br.read_bit().unwrap();
    let mb = decode_i_macroblock(&mut br, IMbType::IPcm, false).unwrap();
    assert_eq!(mb.luma[0], 0);
    assert_eq!(mb.luma[255], 255);
    assert!(mb.chroma_u.iter().all(|&v| v == 10));
    assert!(mb.chroma_v.iter().all(|&v| v == 20));
}

#[test]
fn ipcm_macroblock_short_data_is_error() {
    let data = vec![0u8; 100];
    let mut br = BitReader::new(&data);
    assert!(decode_i_macroblock(&mut br, IMbType::IPcm, false).is_err());
}

#[test]
fn i16x16_uncoded_is_gray() {
    let data = vec![0u8; 4];
    let mut br = BitReader::new(&data);
    let t = IMbType::I16x16 { pred_mode: Intra16x16Mode::Dc, coded_block_pattern: 0, qp_delta: 0 };
    let mb = decode_i_macroblock(&mut br, t, true).unwrap();
    assert!(mb.luma.iter().all(|&v| v == 128));
    assert!(mb.chroma_u.iter().all(|&v| v == 128));
}

#[test]
fn i4x4_all_dc_empty_blocks_is_gray() {
    // Each block: flag 1 (DC) then coeff token 000001 (no coefficients): 7 bits.
    let mut bits = String::new();
    for _ in 0..16 {
        bits.push_str("1000001");
    }
    while bits.len() % 8 != 0 {
        bits.push('0');
    }
    let data: Vec<u8> = bits
        .as_bytes()
        .chunks(8)
        .map(|c| c.iter().fold(0u8, |acc, &b| acc * 2 + (b - b'0')))
        .collect();
    let mut br = BitReader::new(&data);
    let mb = decode_i_macroblock(&mut br, IMbType::I4x4, false).unwrap();
    assert_eq!(mb.luma.len(), 256);
    assert!(mb.luma.iter().all(|&v| v == 128));
}

#[test]
fn p_skip_copies_reference() {
    let width = 32;
    let mut reference = vec![0u8; width * 32];
    for (i, v) in reference.iter_mut().enumerate() {
        *v = (i % 251) as u8;
    }
    let data = vec![0u8; 1];
    let mut br = BitReader::new(&data);
    let mb = decode_p_macroblock(&mut br, PMbType::PSkip, Some(&reference), width, 32, 1, 1).unwrap();
    for y in 0..16 {
        for x in 0..16 {
            assert_eq!(mb.luma[y * 16 + x], reference[(16 + y) * width + 16 + x]);
        }
    }
}

#[test]
fn p_skip_without_reference_is_gray() {
    let data = vec![0u8; 1];
    let mut br = BitReader::new(&data);
    let mb = decode_p_macroblock(&mut br, PMbType::PSkip, None, 16, 16, 0, 0).unwrap();
    assert!(mb.luma.iter().all(|&v| v == 128));
}

#[test]
fn p_16x16_zero_motion_copies_reference() {
    let width = 32;
    let mut reference = vec![0u8; width * 32];
    for (i, v) in reference.iter_mut().enumerate() {
        *v = (i % 200) as u8;
    }
    // mvd = (0, 0): two ue(0) codes "1" "1".
    let data = vec![0b1100_0000];
    let mut br = BitReader::new(&data);
    let mb = decode_p_macroblock(&mut br, PMbType::P16x16, Some(&reference), width, 32, 0, 0).unwrap();
    for y in 0..16 {
        for x in 0..16 {
            assert_eq!(mb.luma[y * 16 + x], reference[y * width + x]);
        }
    }
}

#[test]
fn p_partitions_are_gray() {
    let data = vec![0u8; 1];
    let mut br = BitReader::new(&data);
    let mb = decode_p_macroblock(&mut br, PMbType::P8x8, None, 16, 16, 0, 0).unwrap();
    assert!(mb.luma.iter().all(|&v| v == 128));
    assert_eq!(mb.chroma_v.len(), 64);
}
