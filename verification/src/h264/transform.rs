//! Inverse transforms of residual blocks (4x4 and 8x8 integer transforms, the DC
//! Hadamard transforms) and the addition of a residual to a prediction.
use vstd::prelude::*;
use vstd::arithmetic::power2::pow2;
use crate::error::Result;
use super::arith::{asr, clip_pixel, clip_u8};

verus! {

/// One output of the 4-point butterfly `(a, b, c, d)`:
/// `(a+c)+(b+d)`, `(a-c)+(b-d)`, `(a-c)-(b-d)`, `(a+c)-(b+d)`.
pub open spec fn butterfly4(a: int, b: int, c: int, d: int, k: int) -> int {
    if k == 0 { (a + c) + (b + d) }
    else if k == 1 { (a - c) + (b - d) }
    else if k == 2 { (a - c) - (b - d) }
    else { (a + c) - (b + d) }
}

/// The rows of the 4x4 inverse transform: each row goes through the butterfly and
/// is truncated to `i16`.
pub open spec fn idct4_rows(c: Seq<i16>) -> Seq<i16> {
    Seq::new(16, |p: int| {
        let r = 4 * (p / 4);
        butterfly4(c[r] as int, c[r + 1] as int, c[r + 2] as int, c[r + 3] as int, p % 4) as i16
    })
}

/// The columns of the 4x4 inverse transform over the row results: each column goes
/// through the butterfly, then `(x + 32) >> 6`, truncated to `i16`.
pub open spec fn idct4_cols(t: Seq<i16>) -> Seq<i16> {
    Seq::new(16, |q: int| {
        let i = q % 4;
        ((butterfly4(t[i] as int, t[i + 4] as int, t[i + 8] as int, t[i + 12] as int, q / 4) + 32) / 64) as i16
    })
}

/// The 4x4 inverse transform of a block in raster order.
pub open spec fn idct4(c: Seq<i16>) -> Seq<i16> {
    idct4_cols(idct4_rows(c))
}

/// The 4x4 inverse transform.
pub fn idct_4x4(coeffs: &[i16; 16], output: &mut [i16; 16])
    ensures
        final(output)@ == idct4(coeffs@),
{
    idct_4x4_scalar(coeffs, output);
}

/// The 4x4 inverse transform: a butterfly over each row, then over each column
/// with rounding by `(x + 32) >> 6`.
pub fn idct_4x4_scalar(coeffs: &[i16; 16], output: &mut [i16; 16])
    ensures
        final(output)@ == idct4(coeffs@),
{
    let mut temp = [0i16; 16];
    let mut i: usize = 0;
    while i < 4
        invariant
            0 <= i <= 4,
            forall|p: int| 0 <= p < 4 * i ==> #[trigger] temp@[p] == idct4_rows(coeffs@)[p],
        decreases 4 - i,
    {
        let c0 = coeffs[i * 4] as i32;
        let c1 = coeffs[i * 4 + 1] as i32;
        let c2 = coeffs[i * 4 + 2] as i32;
        let c3 = coeffs[i * 4 + 3] as i32;
        let t0 = c0 + c2;
        let t1 = c0 - c2;
        let t2 = c1 - c3;
        let t3 = c1 + c3;
        temp[i * 4] = #[verifier::truncate] ((t0 + t3) as i16);
        temp[i * 4 + 1] = #[verifier::truncate] ((t1 + t2) as i16);
        temp[i * 4 + 2] = #[verifier::truncate] ((t1 - t2) as i16);
        temp[i * 4 + 3] = #[verifier::truncate] ((t0 - t3) as i16);
        i = i + 1;
    }
    assert(temp@ =~= idct4_rows(coeffs@));
    let mut i: usize = 0;
    while i < 4
        invariant
            0 <= i <= 4,
            temp@ == idct4_rows(coeffs@),
            forall|q: int| 0 <= q < 16 && q % 4 < i ==> #[trigger] output@[q] == idct4_cols(temp@)[q],
        decreases 4 - i,
    {
        let c0 = temp[i] as i32;
        let c1 = temp[i + 4] as i32;
        let c2 = temp[i + 8] as i32;
        let c3 = temp[i + 12] as i32;
        let t0 = c0 + c2;
        let t1 = c0 - c2;
        let t2 = c1 - c3;
        let t3 = c1 + c3;
        let v0 = asr(t0 + t3 + 32, 6);
        let v1 = asr(t1 + t2 + 32, 6);
        let v2 = asr(t1 - t2 + 32, 6);
        let v3 = asr(t0 - t3 + 32, 6);
        output[i] = #[verifier::truncate] (v0 as i16);
        output[i + 4] = #[verifier::truncate] (v1 as i16);
        output[i + 8] = #[verifier::truncate] (v2 as i16);
        output[i + 12] = #[verifier::truncate] (v3 as i16);
        proof {
            vstd::arithmetic::power2::lemma2_to64();
        }
        i = i + 1;
    }
    assert(output@ =~= idct4(coeffs@));
}

/// The 2x2 inverse Hadamard transform of chroma DC coefficients, halved.
pub open spec fn hadamard2(c: Seq<i16>) -> Seq<i16> {
    let (a, b, x, y) = (c[0] as int, c[1] as int, c[2] as int, c[3] as int);
    seq![((a + b + x + y) / 2) as i16, ((a - b + x - y) / 2) as i16,
        ((a + b - x - y) / 2) as i16, ((a - b - x + y) / 2) as i16]
}

/// The 2x2 inverse Hadamard transform.
pub fn hadamard_2x2(coeffs: &[i16; 4], output: &mut [i16; 4])
    ensures
        final(output)@ == hadamard2(coeffs@),
{
    let c0 = coeffs[0] as i32;
    let c1 = coeffs[1] as i32;
    let c2 = coeffs[2] as i32;
    let c3 = coeffs[3] as i32;
    let v0 = asr(c0 + c1 + c2 + c3, 1);
    let v1 = asr(c0 - c1 + c2 - c3, 1);
    let v2 = asr(c0 + c1 - c2 - c3, 1);
    let v3 = asr(c0 - c1 - c2 + c3, 1);
    proof {
        vstd::arithmetic::power2::lemma2_to64();
    }
    output[0] = #[verifier::truncate] (v0 as i16);
    output[1] = #[verifier::truncate] (v1 as i16);
    output[2] = #[verifier::truncate] (v2 as i16);
    output[3] = #[verifier::truncate] (v3 as i16);
    assert(output@ =~= hadamard2(coeffs@));
}

/// One output of the 4-point Hadamard transform `(a, b, c, d)`.
pub open spec fn hadamard_point(a: int, b: int, c: int, d: int, k: int) -> int {
    if k == 0 { a + b + c + d }
    else if k == 1 { a + b - c - d }
    else if k == 2 { a - b - c + d }
    else { a - b + c - d }
}

/// The rows of the 4x4 Hadamard transform, kept at full precision.
pub open spec fn hadamard4_rows(c: Seq<i16>) -> Seq<int> {
    Seq::new(16, |p: int| {
        let r = 4 * (p / 4);
        hadamard_point(c[r] as int, c[r + 1] as int, c[r + 2] as int, c[r + 3] as int, p % 4)
    })
}

/// The 4x4 inverse Hadamard transform of luma DC coefficients: rows, then columns
/// with rounding by `(x + 2) >> 2`, truncated to `i16`.
pub open spec fn hadamard4(c: Seq<i16>) -> Seq<i16> {
    let t = hadamard4_rows(c);
    Seq::new(16, |q: int| {
        let i = q % 4;
        ((hadamard_point(t[i], t[i + 4], t[i + 8], t[i + 12], q / 4) + 2) / 4) as i16
    })
}

/// The 4x4 inverse Hadamard transform.
pub fn hadamard_4x4(coeffs: &[i16; 16], output: &mut [i16; 16])
    ensures
        final(output)@ == hadamard4(coeffs@),
{
    let mut temp = [0i32; 16];
    let mut i: usize = 0;
    while i < 4
        invariant
            0 <= i <= 4,
            forall|p: int| 0 <= p < 4 * i ==> #[trigger] temp@[p] == hadamard4_rows(coeffs@)[p],
            forall|p: int| 0 <= p < 4 * i ==> -131072 <= #[trigger] temp@[p] <= 131072,
        decreases 4 - i,
    {
        let idx = i * 4;
        let c0 = coeffs[idx] as i32;
        let c1 = coeffs[idx + 1] as i32;
        let c2 = coeffs[idx + 2] as i32;
        let c3 = coeffs[idx + 3] as i32;
        temp[idx] = c0 + c1 + c2 + c3;
        temp[idx + 1] = c0 + c1 - c2 - c3;
        temp[idx + 2] = c0 - c1 - c2 + c3;
        temp[idx + 3] = c0 - c1 + c2 - c3;
        i = i + 1;
    }
    assert(forall|p: int| 0 <= p < 16 ==> #[trigger] temp@[p] as int == hadamard4_rows(coeffs@)[p]);
    let mut i: usize = 0;
    while i < 4
        invariant
            0 <= i <= 4,
            forall|p: int| 0 <= p < 16 ==> #[trigger] temp@[p] as int == hadamard4_rows(coeffs@)[p],
            forall|p: int| 0 <= p < 16 ==> -131072 <= #[trigger] temp@[p] <= 131072,
            forall|q: int| 0 <= q < 16 && q % 4 < i ==> #[trigger] output@[q] == hadamard4(coeffs@)[q],
        decreases 4 - i,
    {
        let c0 = temp[i];
        let c1 = temp[i + 4];
        let c2 = temp[i + 8];
        let c3 = temp[i + 12];
        let v0 = asr(c0 + c1 + c2 + c3 + 2, 2);
        let v1 = asr(c0 + c1 - c2 - c3 + 2, 2);
        let v2 = asr(c0 - c1 - c2 + c3 + 2, 2);
        let v3 = asr(c0 - c1 + c2 - c3 + 2, 2);
        output[i] = #[verifier::truncate] (v0 as i16);
        output[i + 4] = #[verifier::truncate] (v1 as i16);
        output[i + 8] = #[verifier::truncate] (v2 as i16);
        output[i + 12] = #[verifier::truncate] (v3 as i16);
        proof {
            vstd::arithmetic::power2::lemma2_to64();
        }
        i = i + 1;
    }
    assert(output@ =~= hadamard4(coeffs@));
}

/// One output of the simplified 8-point butterfly over `x[0..8]`.
pub open spec fn butterfly8(x: Seq<int>, k: int) -> int {
    let t0 = x[0] + x[4];
    let t1 = x[0] - x[4];
    let t2 = x[2] + x[6];
    let t3 = x[2] - x[6];
    let t4 = x[1] + x[7];
    let t5 = x[3] + x[5];
    let t6 = x[1] - x[7];
    let t7 = x[3] - x[5];
    if k == 0 { t0 + t2 + t4 + t5 }
    else if k == 1 { t1 + t3 + t6 + t7 }
    else if k == 2 { t1 - t3 + t6 - t7 }
    else if k == 3 { t0 - t2 + t4 - t5 }
    else if k == 4 { t0 - t2 - t4 + t5 }
    else if k == 5 { t1 - t3 - t6 + t7 }
    else if k == 6 { t1 + t3 - t6 - t7 }
    else { t0 + t2 - t4 - t5 }
}

/// The rows of the 8x8 transform, kept at full precision.
pub open spec fn idct8_rows(c: Seq<i16>) -> Seq<int> {
    Seq::new(64, |p: int| {
        let r = 8 * (p / 8);
        butterfly8(Seq::new(8, |k: int| c[r + k] as int), p % 8)
    })
}

/// The 8x8 inverse transform: rows, then columns with rounding by
/// `(x + 32) >> 6`, truncated to `i16`.
pub open spec fn idct8(c: Seq<i16>) -> Seq<i16> {
    Seq::new(64, |q: int| idct8_col_at(idct8_rows(c), q))
}

/// Output `q` of the column pass over the row results `t`.
pub open spec fn idct8_col_at(t: Seq<int>, q: int) -> i16 {
    let i = q % 8;
    ((butterfly8(Seq::new(8, |k: int| t[i + 8 * k]), q / 8) + 32) / 64) as i16
}

fn butterfly8_exec(x: &[i32; 8], out: &mut [i32; 8])
    requires
        forall|k: int| 0 <= k < 8 ==> -2097152 <= #[trigger] x@[k] <= 2097152,
    ensures
        forall|k: int| 0 <= k < 8 ==> #[trigger] final(out)@[k] == butterfly8(Seq::new(8, |m: int| x@[m] as int), k),
        forall|k: int| 0 <= k < 8 ==> -16777216 <= #[trigger] final(out)@[k] <= 16777216,
{
    let t0 = x[0] + x[4];
    let t1 = x[0] - x[4];
    let t2 = x[2] + x[6];
    let t3 = x[2] - x[6];
    let t4 = x[1] + x[7];
    let t5 = x[3] + x[5];
    let t6 = x[1] - x[7];
    let t7 = x[3] - x[5];
    out[0] = t0 + t2 + t4 + t5;
    out[1] = t1 + t3 + t6 + t7;
    out[2] = t1 - t3 + t6 - t7;
    out[3] = t0 - t2 + t4 - t5;
    out[4] = t0 - t2 - t4 + t5;
    out[5] = t1 - t3 - t6 + t7;
    out[6] = t1 + t3 - t6 - t7;
    out[7] = t0 + t2 - t4 - t5;
    let ghost xs = Seq::new(8, |m: int| x@[m] as int);
    assert(xs[0] == x@[0] && xs[1] == x@[1] && xs[2] == x@[2] && xs[3] == x@[3]);
    assert(xs[4] == x@[4] && xs[5] == x@[5] && xs[6] == x@[6] && xs[7] == x@[7]);
}

/// The simplified 8x8 inverse transform.
pub fn idct_8x8(coeffs: &[i16; 64], output: &mut [i16; 64])
    ensures
        final(output)@ == idct8(coeffs@),
{
    let mut temp = [0i32; 64];
    let mut i: usize = 0;
    while i < 8
        invariant
            0 <= i <= 8,
            forall|p: int| 0 <= p < 8 * i ==> #[trigger] temp@[p] as int == idct8_rows(coeffs@)[p],
            forall|p: int| 0 <= p < 8 * i ==> -2097152 <= #[trigger] temp@[p] <= 2097152,
        decreases 8 - i,
    {
        let mut row = [0i32; 8];
        let mut k: usize = 0;
        while k < 8
            invariant
                0 <= k <= 8,
                i < 8,
                forall|m: int| 0 <= m < k ==> #[trigger] row@[m] == coeffs@[8 * i + m] as i32,
            decreases 8 - k,
        {
            row[k] = coeffs[i * 8 + k] as i32;
            k = k + 1;
        }
        let mut out = [0i32; 8];
        butterfly8_exec(&row, &mut out);
        assert(Seq::new(8, |m: int| row@[m] as int) =~= Seq::new(8, |m: int| coeffs@[8 * i + m] as int));
        let mut k: usize = 0;
        while k < 8
            invariant
                0 <= k <= 8,
                i < 8,
                forall|m: int| 0 <= m < 8 ==> #[trigger] out@[m] == butterfly8(Seq::new(8, |n: int| coeffs@[8 * i + n] as int), m),
                forall|m: int| 0 <= m < 8 ==> -16777216 <= #[trigger] out@[m] <= 16777216,
                forall|p: int| 0 <= p < 8 * i ==> #[trigger] temp@[p] as int == idct8_rows(coeffs@)[p],
                forall|p: int| 0 <= p < 8 * i ==> -2097152 <= #[trigger] temp@[p] <= 2097152,
                forall|m: int| 0 <= m < k ==> #[trigger] temp@[8 * i + m] == out@[m],
            decreases 8 - k,
        {
            temp[i * 8 + k] = out[k];
            k = k + 1;
        }
        assert forall|p: int| 0 <= p < 8 * (i + 1) implies #[trigger] temp@[p] as int == idct8_rows(coeffs@)[p]
            && -2097152 <= temp@[p] <= 2097152 by {
            if p >= 8 * i {
                let m = p - 8 * i;
                assert(temp@[8 * i + m] == out@[m]);
                assert(p / 8 == i && p % 8 == m);
                assert(Seq::new(8, |n: int| coeffs@[8 * (p / 8) + n] as int) =~= Seq::new(8, |n: int| coeffs@[8 * i + n] as int));
                lemma_butterfly8_bound(Seq::new(8, |n: int| coeffs@[8 * i + n] as int), m, 32768);
            }
        }
        i = i + 1;
    }
    let ghost t = idct8_rows(coeffs@);
    let mut i: usize = 0;
    while i < 8
        invariant
            0 <= i <= 8,
            t == idct8_rows(coeffs@),
            forall|p: int| 0 <= p < 64 ==> #[trigger] temp@[p] as int == t[p],
            forall|p: int| 0 <= p < 64 ==> -2097152 <= #[trigger] temp@[p] <= 2097152,
            forall|q: int| 0 <= q < 64 && q % 8 < i ==> #[trigger] output@[q] == idct8_col_at(t, q),
        decreases 8 - i,
    {
        let mut col = [0i32; 8];
        let mut k: usize = 0;
        while k < 8
            invariant
                0 <= k <= 8,
                i < 8,
                forall|m: int| 0 <= m < k ==> #[trigger] col@[m] == temp@[i + 8 * m],
                forall|p: int| 0 <= p < 64 ==> -2097152 <= #[trigger] temp@[p] <= 2097152,
                forall|m: int| 0 <= m < k ==> -2097152 <= #[trigger] col@[m] <= 2097152,
            decreases 8 - k,
        {
            col[k] = temp[i + 8 * k];
            k = k + 1;
        }
        let mut out = [0i32; 8];
        butterfly8_exec(&col, &mut out);
        let ghost x = Seq::new(8, |m: int| t[i + 8 * m]);
        assert(Seq::new(8, |m: int| col@[m] as int) =~= x);
        let mut vals = [0i16; 8];
        let mut k: usize = 0;
        while k < 8
            invariant
                0 <= k <= 8,
                i < 8,
                x == Seq::new(8, |m: int| t[i + 8 * m]),
                forall|m: int| 0 <= m < 8 ==> #[trigger] out@[m] == butterfly8(x, m),
                forall|m: int| 0 <= m < 8 ==> -16777216 <= #[trigger] out@[m] <= 16777216,
                forall|m: int| 0 <= m < k ==> #[trigger] vals@[m] == ((butterfly8(x, m) + 32) / 64) as i16,
            decreases 8 - k,
        {
            let v = asr(out[k] + 32, 6);
            proof {
                vstd::arithmetic::power2::lemma2_to64();
            }
            vals[k] = #[verifier::truncate] (v as i16);
            k = k + 1;
        }
        let mut k: usize = 0;
        while k < 8
            invariant
                0 <= k <= 8,
                i < 8,
                x == Seq::new(8, |m: int| t[i + 8 * m]),
                forall|m: int| 0 <= m < 8 ==> #[trigger] vals@[m] == ((butterfly8(x, m) + 32) / 64) as i16,
                forall|q: int| 0 <= q < 64 && q % 8 < i ==> #[trigger] output@[q] == idct8_col_at(t, q),
                forall|m: int| 0 <= m < k ==> #[trigger] output@[i + 8 * m] == vals@[m],
            decreases 8 - k,
        {
            output[i + 8 * k] = vals[k];
            k = k + 1;
        }
        assert forall|q: int| 0 <= q < 64 && q % 8 < i + 1 implies #[trigger] output@[q] == idct8_col_at(t, q) by {
            if q % 8 == i {
                let m = q / 8;
                assert(q == i + 8 * m);
                assert(output@[i + 8 * m] == vals@[m]);
            }
        }
        i = i + 1;
    }
    assert(output@ =~= idct8(coeffs@));
}

proof fn lemma_butterfly8_bound(x: Seq<int>, k: int, b: int)
    requires
        x.len() == 8,
        b >= 0,
        forall|m: int| 0 <= m < 8 ==> -b <= #[trigger] x[m] <= b,
    ensures
        -8 * b <= butterfly8(x, k) <= 8 * b,
{
}

/// Add a residual to a prediction sample by sample, clipping to `[0, 255]`; only
/// the positions both slices have are touched.
pub fn add_residual(predicted: &mut [u8], residual: &[i16]) -> (r: Result<()>)
    ensures
        r is Ok,
        final(predicted)@.len() == old(predicted)@.len(),
        forall|k: int| 0 <= k < old(predicted)@.len() ==> #[trigger] final(predicted)@[k] == (if k < residual@.len() {
            clip_pixel(old(predicted)@[k] + residual@[k]) as u8
        } else {
            old(predicted)@[k]
        }),
{
    let n = if predicted.len() < residual.len() { predicted.len() } else { residual.len() };
    let mut i: usize = 0;
    while i < n
        invariant
            0 <= i <= n,
            n <= old(predicted)@.len(),
            n <= residual@.len(),
            n == (if old(predicted)@.len() < residual@.len() { old(predicted)@.len() } else { residual@.len() }),
            predicted@.len() == old(predicted)@.len(),
            forall|k: int| 0 <= k < i ==> #[trigger] predicted@[k] == clip_pixel(old(predicted)@[k] + residual@[k]) as u8,
            forall|k: int| i <= k < predicted@.len() ==> #[trigger] predicted@[k] == old(predicted)@[k],
        decreases n - i,
    {
        let v = (predicted[i] as i32) + (residual[i] as i32);
        predicted[i] = clip_u8(v);
        i = i + 1;
    }
    Ok(())
}

/// The 4x4 block `c` read column by column.
pub open spec fn transpose4(c: Seq<i16>) -> Seq<i16> {
    Seq::new(16, |p: int| c[(p % 4) * 4 + p / 4])
}

/// The row stage in full, where no row sum overflows.
proof fn lemma_idct4_rows_exact(c: Seq<i16>)
    requires
        c.len() == 16,
        forall|k: int| 0 <= k < 16 ==> -8192 < #[trigger] c[k] < 8192,
    ensures
        forall|r: int, k: int| 0 <= r < 4 && 0 <= k < 4 ==> #[trigger] idct4_rows(c)[4 * r + k] as int
            == butterfly4(c[4 * r] as int, c[4 * r + 1] as int, c[4 * r + 2] as int, c[4 * r + 3] as int, k),
{
    assert forall|r: int, k: int| 0 <= r < 4 && 0 <= k < 4 implies #[trigger] idct4_rows(c)[4 * r + k] as int
        == butterfly4(c[4 * r] as int, c[4 * r + 1] as int, c[4 * r + 2] as int, c[4 * r + 3] as int, k) by {
        assert((4 * r + k) / 4 == r && (4 * r + k) % 4 == k);
        assert(-8192 < c[4 * r] < 8192 && -8192 < c[4 * r + 1] < 8192 && -8192 < c[4 * r + 2] < 8192
            && -8192 < c[4 * r + 3] < 8192);
    }
}

/// The two-stage butterfly sum is the same whichever stage runs over rows.
proof fn lemma_butterfly_swap(x: Seq<int>, i: int, k: int)
    requires
        x.len() == 16,
        0 <= i < 4,
        0 <= k < 4,
    ensures
        butterfly4(butterfly4(x[0], x[4], x[8], x[12], i), butterfly4(x[1], x[5], x[9], x[13], i),
            butterfly4(x[2], x[6], x[10], x[14], i), butterfly4(x[3], x[7], x[11], x[15], i), k)
        == butterfly4(butterfly4(x[0], x[1], x[2], x[3], k), butterfly4(x[4], x[5], x[6], x[7], k),
            butterfly4(x[8], x[9], x[10], x[11], k), butterfly4(x[12], x[13], x[14], x[15], k), i),
{
    if i == 0 {
        if k == 0 {} else if k == 1 {} else if k == 2 {} else {}
    } else if i == 1 {
        if k == 0 {} else if k == 1 {} else if k == 2 {} else {}
    } else if i == 2 {
        if k == 0 {} else if k == 1 {} else if k == 2 {} else {}
    } else {
        if k == 0 {} else if k == 1 {} else if k == 2 {} else {}
    }
}

/// The 4x4 inverse transform treats rows and columns alike: where no coefficient
/// reaches 8192 in magnitude (so no intermediate value overflows), transforming the
/// transposed block gives the transposed result. A block with only a DC coefficient
/// `d` becomes flat, every sample `(d + 32) >> 6`.
pub proof fn lemma_idct4_symmetric(c: Seq<i16>)
    requires
        c.len() == 16,
        forall|k: int| 0 <= k < 16 ==> -8192 < #[trigger] c[k] < 8192,
    ensures
        idct4(transpose4(c)) == transpose4(idct4(c)),
        (forall|k: int| 1 <= k < 16 ==> #[trigger] c[k] == 0) ==>
            forall|q: int| 0 <= q < 16 ==> #[trigger] idct4(c)[q] as int == (c[0] as int + 32) / 64,
{
    let ct = transpose4(c);
    assert forall|k: int| 0 <= k < 16 implies -8192 < #[trigger] ct[k] < 8192 by {
        assert(0 <= (k % 4) * 4 + k / 4 < 16);
    }
    lemma_idct4_rows_exact(c);
    lemma_idct4_rows_exact(ct);
    let t = idct4_rows(c);
    let tt = idct4_rows(ct);
    let x = Seq::new(16, |p: int| c[p] as int);
    assert forall|q: int| 0 <= q < 16 implies #[trigger] idct4(ct)[q] == transpose4(idct4(c))[q] by {
        let (i, k) = (q % 4, q / 4);
        let j = i * 4 + k;
        assert(j % 4 == k && j / 4 == i);
        assert(ct[0] == c[0] && ct[1] == c[4] && ct[2] == c[8] && ct[3] == c[12]);
        assert(ct[4] == c[1] && ct[5] == c[5] && ct[6] == c[9] && ct[7] == c[13]);
        assert(ct[8] == c[2] && ct[9] == c[6] && ct[10] == c[10] && ct[11] == c[14]);
        assert(ct[12] == c[3] && ct[13] == c[7] && ct[14] == c[11] && ct[15] == c[15]);
        assert(tt[4 * 0 + i] as int == butterfly4(x[0], x[4], x[8], x[12], i));
        assert(tt[4 * 1 + i] as int == butterfly4(x[1], x[5], x[9], x[13], i));
        assert(tt[4 * 2 + i] as int == butterfly4(x[2], x[6], x[10], x[14], i));
        assert(tt[4 * 3 + i] as int == butterfly4(x[3], x[7], x[11], x[15], i));
        assert(t[4 * 0 + k] as int == butterfly4(x[0], x[1], x[2], x[3], k));
        assert(t[4 * 1 + k] as int == butterfly4(x[4], x[5], x[6], x[7], k));
        assert(t[4 * 2 + k] as int == butterfly4(x[8], x[9], x[10], x[11], k));
        assert(t[4 * 3 + k] as int == butterfly4(x[12], x[13], x[14], x[15], k));
        lemma_butterfly_swap(x, i, k);
    }
    assert(idct4(ct) =~= transpose4(idct4(c)));
    if forall|k: int| 1 <= k < 16 ==> #[trigger] c[k] == 0 {
        assert forall|q: int| 0 <= q < 16 implies #[trigger] idct4(c)[q] as int == (c[0] as int + 32) / 64 by {
            let i = q % 4;
            assert(x[1] == 0 && x[2] == 0 && x[3] == 0 && x[4] == 0 && x[5] == 0 && x[6] == 0 && x[7] == 0);
            assert(x[8] == 0 && x[9] == 0 && x[10] == 0 && x[11] == 0 && x[12] == 0 && x[13] == 0 && x[14] == 0
                && x[15] == 0);
            assert(t[4 * 0 + i] as int == butterfly4(x[0], x[1], x[2], x[3], i));
            assert(t[4 * 1 + i] as int == butterfly4(x[4], x[5], x[6], x[7], i));
            assert(t[4 * 2 + i] as int == butterfly4(x[8], x[9], x[10], x[11], i));
            assert(t[4 * 3 + i] as int == butterfly4(x[12], x[13], x[14], x[15], i));
        }
    }
}

} // verus!
