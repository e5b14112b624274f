use rav::h264::transform::{add_residual, hadamard_2x2, hadamard_4x4, idct_4x4, idct_4x4_scalar, idct_8x8};
use rav::h264::simd::idct_4x4_simd;

#[test]
fn test_idct_4x4_dc_only() {
    let mut coeffs = [0i16; 16];
    coeffs[0] = 64;
    let mut output = [0i16; 16];
    idct_4x4(&coeffs, &mut output);
    assert!(output[0].abs() > 0);
}

#[test]
fn test_add_residual() {
    let mut predicted = [128u8; 16];
    let residual = [10i16; 16];
    add_residual(&mut predicted, &residual).unwrap();
    assert_eq!(predicted[0], 138);
}

#[test]
fn test_hadamard_4x4_dc_only() {
    let mut coeffs = [0i16; 16];
    coeffs[0] = 64;
    let mut output = [0i16; 16];
    hadamard_4x4(&coeffs, &mut output);
    assert!(output[0].abs() > 0);
    for i in 1..16 {
        assert!((output[i] - output[0]).abs() <= 2);
    }
}

#[test]
fn test_hadamard_4x4_pattern() {
    let coeffs = [16i16, 8, 4, 2, 8, 4, 2, 1, 4, 2, 1, 0, 2, 1, 0, 0];
    let mut output = [0i16; 16];
    hadamard_4x4(&coeffs, &mut output);
    assert!(output.iter().any(|&x| x != 0));
}

#[test]
fn test_idct_8x8_dc_only() {
    let mut coeffs = [0i16; 64];
    coeffs[0] = 128;
    let mut output = [0i16; 64];
    idct_8x8(&coeffs, &mut output);
    assert!(output[0].abs() > 0);
    let avg = output[0];
    for &val in &output[1..] {
        assert!((val - avg).abs() <= 4, "Non-uniform DC spread: {} vs {}", val, avg);
    }
}

#[test]
fn test_idct_8x8_pattern() {
    let mut coeffs = [0i16; 64];
    coeffs[0] = 64;
    coeffs[1] = 32;
    coeffs[8] = 16;
    let mut output = [0i16; 64];
    idct_8x8(&coeffs, &mut output);
    assert!(output.iter().any(|&x| x != 0));
    assert!(output.iter().any(|&x| x != output[0]));
}

#[test]
fn transform_idct_4x4_exact_dc() {
    let mut coeffs = [0i16; 16];
    coeffs[0] = 64;
    let mut output = [0i16; 16];
    idct_4x4_scalar(&coeffs, &mut output);
    assert_eq!(output, [1i16; 16]);
}

#[test]
fn transform_hadamard_2x2_exact() {
    let coeffs = [8i16, 4, 2, 0];
    let mut output = [0i16; 4];
    hadamard_2x2(&coeffs, &mut output);
    assert_eq!(output, [7, 3, 5, 1]);
}

#[test]
fn transform_add_residual_clips_and_stops_at_shorter() {
    let mut predicted = [250u8, 5, 100];
    let residual = [10i16, -10];
    add_residual(&mut predicted, &residual).unwrap();
    assert_eq!(predicted, [255, 0, 100]);
}

#[test]
fn test_idct_4x4_simd_dc_only() {
    let mut coeffs = [0i16; 16];
    coeffs[0] = 64;

    let mut output = [0i16; 16];
    idct_4x4_simd(&coeffs, &mut output);

    assert!(output[0].abs() > 0);

    let mut scalar_output = [0i16; 16];
    idct_4x4_scalar(&coeffs, &mut scalar_output);

    for i in 0..16 {
        let diff = (output[i] - scalar_output[i]).abs();
        assert!(diff <= 2, "SIMD vs scalar mismatch at {}: {} vs {}", i, output[i], scalar_output[i]);
    }
}

#[test]
fn test_idct_dispatch() {
    let mut coeffs = [0i16; 16];
    coeffs[0] = 64;
    coeffs[1] = 16;

    let mut output = [0i16; 16];
    idct_4x4_simd(&coeffs, &mut output);

    assert!(output.iter().any(|&x| x != 0), "IDCT output is all zeros");
}
