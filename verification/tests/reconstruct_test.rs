use rav::h264::reconstruct::{
    reconstruct_4x4_block, reconstruct_8x8_block, reconstruct_chroma_4x4, reconstruct_luma_4x4,
    reconstruct_luma_8x8, reconstruct_skip_mb, ReconstructedMb,
};

#[test]
fn test_reconstructed_mb_new() {
    let mb = ReconstructedMb::new();
    assert_eq!(mb.luma[0], 0);
    assert_eq!(mb.chroma_u[0], 0);
    assert_eq!(mb.chroma_v[0], 0);
}

#[test]
fn test_from_prediction_and_residual() {
    let mut prediction = ReconstructedMb::new();
    let mut residual = ReconstructedMb::new();
    for i in 0..256 {
        prediction.luma[i] = 100;
    }
    for i in 0..256 {
        residual.luma[i] = 20;
    }
    let result = ReconstructedMb::from_prediction_and_residual(&prediction, &residual);
    assert_eq!(result.luma[0], 120);
    assert_eq!(result.luma[255], 120);
}

#[test]
fn test_from_prediction_and_residual_clipping() {
    let mut prediction = ReconstructedMb::new();
    let mut residual = ReconstructedMb::new();
    for i in 0..256 {
        prediction.luma[i] = 250;
    }
    for i in 0..256 {
        residual.luma[i] = 20;
    }
    let result = ReconstructedMb::from_prediction_and_residual(&prediction, &residual);
    assert_eq!(result.luma[0], 255);
    assert_eq!(result.luma[255], 255);
}

#[test]
fn test_reconstruct_4x4_block_dc_only() {
    let mut coeffs = [0i16; 16];
    coeffs[0] = 64;
    let prediction = [128u8; 16];
    let mut output = [0u8; 16];
    reconstruct_4x4_block(&coeffs, &prediction, &mut output).unwrap();
    assert!(output[0] > 128 && output[0] < 160);
}

#[test]
fn test_reconstruct_4x4_block_zero_coeffs() {
    let coeffs = [0i16; 16];
    let prediction = [100u8; 16];
    let mut output = [0u8; 16];
    reconstruct_4x4_block(&coeffs, &prediction, &mut output).unwrap();
    assert_eq!(output[0], 100);
    assert_eq!(output[15], 100);
}

#[test]
fn test_reconstruct_8x8_block_zero_coeffs() {
    let coeffs = [0i16; 64];
    let prediction = [150u8; 64];
    let mut output = [0u8; 64];
    reconstruct_8x8_block(&coeffs, &prediction, &mut output).unwrap();
    assert_eq!(output[0], 150);
    assert_eq!(output[63], 150);
}

#[test]
fn test_reconstruct_luma_4x4_all_zeros() {
    let coeffs = [[0i16; 16]; 16];
    let prediction = [128u8; 256];
    let mut output = [0u8; 256];
    reconstruct_luma_4x4(&coeffs, &prediction, &mut output).unwrap();
    assert_eq!(output[0], 128);
    assert_eq!(output[255], 128);
}

#[test]
fn test_reconstruct_skip_mb() {
    let mut prediction = ReconstructedMb::new();
    for i in 0..256 {
        prediction.luma[i] = 100;
    }
    let result = reconstruct_skip_mb(&prediction);
    assert_eq!(result.luma[0], 100);
    assert_eq!(result.luma[255], 100);
}

#[test]
fn test_reconstruct_chroma_4x4() {
    let coeffs = [[0i16; 16]; 4];
    let prediction = [128u8; 64];
    let mut output = [0u8; 64];
    reconstruct_chroma_4x4(&coeffs, &prediction, &mut output).unwrap();
    assert_eq!(output[0], 128);
    assert_eq!(output[63], 128);
}

#[test]
fn luma_4x4_places_each_block() {
    // A DC coefficient in block 5 (second row, second column) lifts only its 4x4 area.
    let mut coeffs = [[0i16; 16]; 16];
    coeffs[5][0] = 64;
    let prediction = [100u8; 256];
    let mut output = [0u8; 256];
    reconstruct_luma_4x4(&coeffs, &prediction, &mut output).unwrap();
    for y in 0..16 {
        for x in 0..16 {
            let inside = (4..8).contains(&y) && (4..8).contains(&x);
            if inside {
                assert_eq!(output[y * 16 + x], 101, "({}, {})", x, y);
            } else {
                assert_eq!(output[y * 16 + x], 100, "({}, {})", x, y);
            }
        }
    }
}

#[test]
fn luma_8x8_places_each_block() {
    let mut coeffs = [[0i16; 64]; 4];
    coeffs[3][0] = 512;
    let mut prediction = [0u8; 256];
    for (i, p) in prediction.iter_mut().enumerate() {
        *p = (i % 200) as u8;
    }
    let mut output = [0u8; 256];
    reconstruct_luma_8x8(&coeffs, &prediction, &mut output).unwrap();
    for y in 0..16 {
        for x in 0..16 {
            let i = y * 16 + x;
            if y >= 8 && x >= 8 {
                assert_ne!(output[i], prediction[i]);
            } else {
                assert_eq!(output[i], prediction[i]);
            }
        }
    }
}

#[test]
fn chroma_4x4_places_each_block() {
    let mut coeffs = [[0i16; 16]; 4];
    coeffs[2][0] = -64;
    let prediction = [50u8; 64];
    let mut output = [0u8; 64];
    reconstruct_chroma_4x4(&coeffs, &prediction, &mut output).unwrap();
    for y in 0..8 {
        for x in 0..8 {
            let expect = if y >= 4 && x < 4 { 49 } else { 50 };
            assert_eq!(output[y * 8 + x], expect);
        }
    }
}
