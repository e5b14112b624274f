use rav::h264::deblock::{
    calc_alpha_beta, calc_tc0, deblock_chroma_edge_horizontal, deblock_chroma_edge_vertical,
    deblock_luma_edge_horizontal, deblock_luma_edge_vertical, should_filter, FilterStrength,
};

#[test]
fn test_calc_alpha_beta() {
    let (alpha, beta) = calc_alpha_beta(0);
    assert_eq!(alpha, 0);
    assert_eq!(beta, 0);
    let (alpha, beta) = calc_alpha_beta(26);
    assert_eq!(alpha, 15);
    assert_eq!(beta, 6);
    let (alpha, beta) = calc_alpha_beta(51);
    assert_eq!(alpha, 255);
    assert_eq!(beta, 18);
}

#[test]
fn test_calc_tc0() {
    assert_eq!(calc_tc0(26, 0), 0);
    assert_eq!(calc_tc0(26, 1), 1);
    assert_eq!(calc_tc0(26, 4), 0);
}

#[test]
fn test_filter_strength_constants() {
    assert_eq!(FilterStrength::STRONG().bs, 4);
    assert_eq!(FilterStrength::MEDIUM().bs, 3);
    assert_eq!(FilterStrength::WEAK().bs, 1);
    assert_eq!(FilterStrength::NONE().bs, 0);
}

#[test]
fn test_should_filter() {
    assert!(should_filter(100, 102, 98, 96, 10, 5));
    assert!(!should_filter(100, 102, 80, 78, 10, 5));
    assert!(!should_filter(100, 120, 98, 96, 10, 5));
}

#[test]
fn test_deblock_luma_edge_vertical_no_filter() {
    let mut samples = vec![128u8; 32];
    let original = samples.clone();
    deblock_luma_edge_vertical(&mut samples, 8, 16, 10, 5, 1, 0).unwrap();
    assert_eq!(samples, original);
}

#[test]
fn test_deblock_luma_edge_vertical_weak() {
    let mut samples = vec![
        0, 0, 0, 0, 100, 100, 100, 100, 110, 110, 110, 110, 0, 0, 0, 0, 0, 0, 0, 0, 100, 100, 100, 100,
        110, 110, 110, 110, 0, 0, 0, 0, 0, 0, 0, 0, 100, 100, 100, 100, 110, 110, 110, 110, 0, 0, 0, 0,
        0, 0, 0, 0, 100, 100, 100, 100, 110, 110, 110, 110, 0, 0, 0, 0,
    ];
    let (alpha, beta) = calc_alpha_beta(26);
    let tc0 = calc_tc0(26, 1);
    deblock_luma_edge_vertical(&mut samples, 8, 16, alpha, beta, tc0, 1).unwrap();
    assert_ne!(samples[7], 100);
    assert_ne!(samples[8], 110);
}

#[test]
fn test_deblock_chroma_edge_vertical() {
    let mut samples = vec![0, 0, 100, 100, 110, 110, 0, 0, 0, 0, 100, 100, 110, 110, 0, 0];
    let (alpha, beta) = calc_alpha_beta(26);
    let tc0 = calc_tc0(26, 1);
    deblock_chroma_edge_vertical(&mut samples, 4, 8, alpha, beta, tc0, 1).unwrap();
    assert_ne!(samples[3], 100);
    assert_ne!(samples[4], 110);
}

#[test]
fn test_alpha_beta_table_bounds() {
    for qp in 0..=51 {
        let (alpha, beta) = calc_alpha_beta(qp);
        assert!(alpha >= 0);
        assert!(beta >= 0);
        assert!(alpha <= 255);
    }
}

#[test]
fn test_tc0_table_bounds() {
    for qp in 0..=51 {
        for bs in 0..=4 {
            let tc0 = calc_tc0(qp, bs);
            assert!(tc0 >= 0);
        }
    }
}

#[test]
fn deblock_tables_exact_values() {
    assert_eq!(calc_alpha_beta(16), (4, 2));
    assert_eq!(calc_alpha_beta(40), (80, 13));
    assert_eq!(calc_alpha_beta(-5), (0, 0));
    assert_eq!(calc_tc0(51, 3), 25);
    assert_eq!(calc_tc0(17, 3), 1);
    assert_eq!(calc_tc0(17, 1), 0);
    assert_eq!(calc_tc0(40, 2), 5);
}

#[test]
fn deblock_weak_exact_values() {
    // p0 = 100, q0 = 110, tc0 = 1; both sides flat so tc = 3:
    // delta = clip(-3, 3, (10 * 4 + 0 + 4) >> 3) = 3
    // p1: clip(-1, 1, (100 + 105 - 200) >> 1) = 1; q1: clip(-1, 1, (110 + 105 - 220) >> 1) = -1
    let row = [100u8, 100, 100, 100, 110, 110, 110, 110];
    let mut samples = Vec::new();
    for _ in 0..4 {
        samples.extend_from_slice(&row);
    }
    deblock_luma_edge_vertical(&mut samples, 4, 8, 15, 6, 1, 1).unwrap();
    for r in 0..4 {
        assert_eq!(&samples[r * 8..r * 8 + 8], &[100, 100, 101, 103, 107, 109, 110, 110]);
    }
}

#[test]
fn deblock_horizontal_edges() {
    // one column, stride 1: the same layout as a vertical edge
    let mut luma = vec![100u8, 100, 100, 100, 110, 110, 110, 110, 0, 0, 0];
    deblock_luma_edge_horizontal(&mut luma, 4, 0, 1, 15, 6, 1, 1).unwrap();
    assert_ne!(luma[3], 100);
    let mut chroma = vec![100u8, 100, 110, 110, 0];
    deblock_chroma_edge_horizontal(&mut chroma, 2, 0, 1, 15, 6, 1, 1).unwrap();
    assert_ne!(chroma[1], 100);
    assert_ne!(chroma[2], 110);
}

#[test]
fn horizontal_edge_filters_like_transposed_vertical_edge() {
    let n = 8usize;
    let mut h = vec![0u8; n * n];
    for r in 0..n {
        for c in 0..n {
            h[r * n + c] = if r < 4 { 60 + (c as u8) } else { 70 + (r as u8) };
        }
    }
    let mut v = vec![0u8; n * n];
    for r in 0..n {
        for c in 0..n {
            v[c * n + r] = h[r * n + c];
        }
    }
    for bs in [1u8, 2, 4] {
        let mut hh = h.clone();
        let mut vv = v.clone();
        deblock_luma_edge_horizontal(&mut hh, 4, 0, n, 40, 10, 2, bs).unwrap();
        deblock_luma_edge_vertical(&mut vv, 4, n, 40, 10, 2, bs).unwrap();
        for r in 0..n {
            for c in 0..n {
                assert_eq!(hh[r * n + c], vv[c * n + r]);
            }
        }
        assert_ne!(hh, h);
    }
}
