//! Integer helpers shared by the sample-domain stages: clipping and arithmetic
//! right shifts.
use vstd::prelude::*;
use vstd::arithmetic::power2::{pow2, lemma2_to64, lemma_pow2_unfold, lemma_pow2_strictly_increases};

verus! {

/// `x` clipped to `[lo, hi]`.
pub open spec fn clip3(lo: int, hi: int, x: int) -> int {
    if x < lo { lo } else if x > hi { hi } else { x }
}

/// `x` clipped to the 8-bit sample range.
pub open spec fn clip_pixel(x: int) -> int {
    clip3(0, 255, x)
}

/// Flooring division by `c` and then by `d` is flooring division by `c * d`.
pub proof fn lemma_floor_div_nested(x: int, c: int, d: int)
    requires
        c > 0,
        d > 0,
    ensures
        (x / c) / d == x / (c * d),
{
    let q1 = x / c;
    let r1 = x % c;
    vstd::arithmetic::div_mod::lemma_fundamental_div_mod(x, c);
    vstd::arithmetic::div_mod::lemma_mod_bound(x, c);
    let q2 = q1 / d;
    let r2 = q1 % d;
    vstd::arithmetic::div_mod::lemma_fundamental_div_mod(q1, d);
    vstd::arithmetic::div_mod::lemma_mod_bound(q1, d);
    assert(x == q2 * (c * d) + (c * r2 + r1)) by (nonlinear_arith)
        requires x == c * q1 + r1, q1 == d * q2 + r2;
    assert(0 <= c * r2 + r1 < c * d) by (nonlinear_arith)
        requires 0 <= r1 < c, 0 <= r2 < d, c > 0;
    vstd::arithmetic::div_mod::lemma_fundamental_div_mod_converse(x, c * d, q2, c * r2 + r1);
}

/// An arithmetic right shift of an `i32` by `k` is the floor of `x / 2^k`.
pub proof fn lemma_shr_is_floor_div(x: i32, k: u32)
    requires
        k < 32,
    ensures
        (x >> k) as int == (x as int) / (pow2(k as nat) as int),
    decreases k,
{
    lemma2_to64();
    if k == 0 {
        assert(x >> 0u32 == x) by (bit_vector);
    } else {
        let h = x >> 1u32;
        assert(h as int == (x as int) / 2) by (bit_vector) requires h == x >> 1u32;
        let k1 = (k - 1) as u32;
        assert(x >> k == h >> k1) by (bit_vector) requires h == x >> 1u32, k1 + 1 == k, k < 32;
        lemma_shr_is_floor_div(h, k1);
        lemma_pow2_unfold(k as nat);
        vstd::arithmetic::power2::lemma_pow2_pos((k - 1) as nat);
        lemma_floor_div_nested(x as int, 2, pow2((k - 1) as nat) as int);
    }
}

/// Arithmetic right shift of `x` by `k` (below 32): the floor of `x / 2^k`.
pub fn asr(x: i32, k: u32) -> (r: i32)
    requires
        k < 32,
    ensures
        r as int == (x as int) / (pow2(k as nat) as int),
        x >= 0 ==> 0 <= r <= x,
        x < 0 ==> x <= r < 0,
{
    proof {
        lemma_shr_is_floor_div(x, k);
        vstd::arithmetic::power2::lemma_pow2_pos(k as nat);
        lemma_floor_div_bounds(x as int, pow2(k as nat) as int);
    }
    x >> k
}

/// Flooring division by a positive number moves towards zero without crossing it.
pub proof fn lemma_floor_div_bounds(x: int, d: int)
    requires
        d >= 1,
    ensures
        x >= 0 ==> 0 <= x / d <= x,
        x < 0 ==> x <= x / d < 0,
{
    let r = x / d;
    let m = x % d;
    vstd::arithmetic::div_mod::lemma_fundamental_div_mod(x, d);
    vstd::arithmetic::div_mod::lemma_mod_bound(x, d);
    assert(x >= 0 ==> 0 <= r <= x) by (nonlinear_arith)
        requires x == d * r + m, 0 <= m < d, d >= 1;
    assert(x < 0 ==> x <= r < 0) by (nonlinear_arith)
        requires x == d * r + m, 0 <= m < d, d >= 1;
}

/// `x` clipped to `[0, 255]`.
pub fn clip_u8(x: i32) -> (r: u8)
    ensures
        r == clip_pixel(x as int),
{
    if x < 0 { 0 } else if x > 255 { 255 } else { x as u8 }
}

/// `1 << k` in `i32` for `k` up to 31: `2^k`, except that `1 << 31` is `i32::MIN`.
pub fn shl1_i32(k: u32) -> (r: i32)
    requires
        k <= 31,
    ensures
        k <= 30 ==> r == pow2(k as nat),
        k == 31 ==> r == i32::MIN,
{
    if k == 31 {
        return i32::MIN;
    }
    let mut r: i32 = 1;
    let mut j: u32 = 0;
    proof {
        lemma2_to64();
    }
    while j < k
        invariant
            j <= k <= 30,
            r == pow2(j as nat),
        decreases k - j,
    {
        proof {
            lemma2_to64();
            lemma_pow2_unfold((j + 1) as nat);
            lemma_pow2_strictly_increases((j + 1) as nat, 31);
        }
        r = r * 2;
        j = j + 1;
    }
    r
}

/// The rounded mean of two samples, `(x + y + 1) >> 1`.
pub open spec fn mean2(x: int, y: int) -> int {
    (x + y + 1) / 2
}

/// The three-tap smoothing `(x + 2y + z + 2) >> 2` of the intra predictors.
pub open spec fn mean3(x: int, y: int, z: int) -> int {
    (x + 2 * y + z + 2) / 4
}

/// `(x + y + 1) >> 1` of two samples.
pub fn avg2(x: u8, y: u8) -> (r: u8)
    ensures
        r == mean2(x as int, y as int),
{
    ((x as u16 + y as u16 + 1) / 2) as u8
}

/// `(x + 2y + z + 2) >> 2` of three samples.
pub fn avg3(x: u8, y: u8, z: u8) -> (r: u8)
    ensures
        r == mean3(x as int, y as int, z as int),
{
    ((x as u16 + 2 * (y as u16) + z as u16 + 2) / 4) as u8
}

} // verus!
