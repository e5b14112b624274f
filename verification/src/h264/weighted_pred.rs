//! Weighted sample prediction: explicit weights and offsets applied to
//! uni- and bi-directional predictions.
use vstd::prelude::*;
use vstd::arithmetic::power2::{pow2, lemma2_to64, lemma_pow2_strictly_increases};
use super::arith::{asr, clip_pixel, clip_u8, shl1_i32};

verus! {

/// Weights, offsets and denominators of explicit weighted prediction.
#[derive(Debug, Clone, Copy)]
pub struct WeightedPredParams {
    pub luma_weight_l0: i16,
    pub luma_offset_l0: i16,
    pub luma_weight_l1: i16,
    pub luma_offset_l1: i16,
    pub chroma_weight_l0: [i16; 2],
    pub chroma_offset_l0: [i16; 2],
    pub chroma_weight_l1: [i16; 2],
    pub chroma_offset_l1: [i16; 2],
    pub luma_log2_weight_denom: u8,
    pub chroma_log2_weight_denom: u8,
}

impl Default for WeightedPredParams {
    /// Neutral weights (64 with denominator 2^6) and zero offsets.
    fn default() -> (p: WeightedPredParams)
        ensures
            p.luma_weight_l0 == 64 && p.luma_weight_l1 == 64,
            p.luma_offset_l0 == 0 && p.luma_offset_l1 == 0,
            p.chroma_weight_l0@ == seq![64i16, 64] && p.chroma_weight_l1@ == seq![64i16, 64],
            p.chroma_offset_l0@ == seq![0i16, 0] && p.chroma_offset_l1@ == seq![0i16, 0],
            p.luma_log2_weight_denom == 6 && p.chroma_log2_weight_denom == 6,
    {
        let p = WeightedPredParams {
            luma_weight_l0: 64,
            luma_offset_l0: 0,
            luma_weight_l1: 64,
            luma_offset_l1: 0,
            chroma_weight_l0: [64, 64],
            chroma_offset_l0: [0, 0],
            chroma_weight_l1: [64, 64],
            chroma_offset_l1: [0, 0],
            luma_log2_weight_denom: 6,
            chroma_log2_weight_denom: 6,
        };
        assert(p.chroma_weight_l0@ =~= seq![64i16, 64]);
        assert(p.chroma_weight_l1@ =~= seq![64i16, 64]);
        assert(p.chroma_offset_l0@ =~= seq![0i16, 0]);
        assert(p.chroma_offset_l1@ =~= seq![0i16, 0]);
        p
    }
}

/// A uni-directionally weighted sample:
/// `clip((s * w + 2^(denom-1)) >> denom) + o)`.
pub open spec fn weighted_sample(s: int, w: int, o: int, denom: int) -> int {
    clip_pixel((s * w + pow2((denom - 1) as nat)) / (pow2(denom as nat) as int) + o)
}

/// A bi-directionally weighted sample:
/// `clip((p0 * w0 + p1 * w1 + 2^denom) >> (denom + 1)) + ((o0 + o1 + 1) >> 1))`.
pub open spec fn weighted_bi_sample(p0: int, p1: int, w0: int, w1: int, o0: int, o1: int, denom: int) -> int {
    clip_pixel((p0 * w0 + p1 * w1 + pow2(denom as nat)) / (pow2((denom + 1) as nat) as int) + (o0 + o1 + 1) / 2)
}

fn weight_uni(pred: &mut [u8], w: i32, o: i32, denom: u8)
    requires
        old(pred)@.len() == 0 || 1 <= denom <= 31,
        -32768 <= w <= 32767,
        -32768 <= o <= 32767,
    ensures
        final(pred)@.len() == old(pred)@.len(),
        forall|k: int| 0 <= k < old(pred)@.len() ==>
            #[trigger] final(pred)@[k] == weighted_sample(old(pred)@[k] as int, w as int, o as int, denom as int) as u8,
{
    let n = pred.len();
    if n == 0 {
        return;
    }
    let half = shl1_i32((denom - 1) as u32);
    proof {
        lemma2_to64();
        if denom - 1 < 30 {
            lemma_pow2_strictly_increases((denom - 1) as nat, 30);
        }
    }
    let mut i: usize = 0;
    while i < n
        invariant
            0 <= i <= n,
            n == pred@.len(),
            n == old(pred)@.len(),
            1 <= denom <= 31,
            -32768 <= w <= 32767,
            -32768 <= o <= 32767,
            half == pow2((denom - 1) as nat),
            0 < half <= 0x4000_0000,
            forall|k: int| 0 <= k < i ==>
                #[trigger] pred@[k] == weighted_sample(old(pred)@[k] as int, w as int, o as int, denom as int) as u8,
            forall|k: int| i <= k < n ==> #[trigger] pred@[k] == old(pred)@[k],
        decreases n - i,
    {
        let s = pred[i] as i32;
        assert(-8388608 <= s * w <= 8388608) by (nonlinear_arith) requires 0 <= s <= 255, -32768 <= w <= 32767;
        let v = asr(s * w + half, denom as u32) + o;
        pred[i] = clip_u8(v);
        i = i + 1;
    }
}

fn weight_bi(pred_l0: &[u8], pred_l1: &[u8], output: &mut [u8], w0: i32, w1: i32, o0: i32, o1: i32, denom: u8)
    requires
        pred_l0@.len() == 0 || denom <= 30,
        pred_l1@.len() >= pred_l0@.len(),
        old(output)@.len() >= pred_l0@.len(),
        -32768 <= w0 <= 32767, -32768 <= w1 <= 32767,
        -32768 <= o0 <= 32767, -32768 <= o1 <= 32767,
    ensures
        final(output)@.len() == old(output)@.len(),
        forall|k: int| 0 <= k < pred_l0@.len() ==> #[trigger] final(output)@[k]
            == weighted_bi_sample(pred_l0@[k] as int, pred_l1@[k] as int, w0 as int, w1 as int, o0 as int, o1 as int, denom as int) as u8,
        forall|k: int| pred_l0@.len() <= k < old(output)@.len() ==> #[trigger] final(output)@[k] == old(output)@[k],
{
    let n = pred_l0.len();
    if n == 0 {
        return;
    }
    let round = shl1_i32(denom as u32);
    proof {
        lemma2_to64();
        if denom < 30 {
            lemma_pow2_strictly_increases(denom as nat, 30);
        }
    }
    let mut i: usize = 0;
    while i < n
        invariant
            0 <= i <= n,
            n == pred_l0@.len(),
            pred_l1@.len() >= n,
            output@.len() == old(output)@.len(),
            old(output)@.len() >= n,
            denom <= 30,
            -32768 <= w0 <= 32767, -32768 <= w1 <= 32767,
            -32768 <= o0 <= 32767, -32768 <= o1 <= 32767,
            round == pow2(denom as nat),
            0 < round <= 0x4000_0000,
            forall|k: int| 0 <= k < i ==> #[trigger] output@[k]
                == weighted_bi_sample(pred_l0@[k] as int, pred_l1@[k] as int, w0 as int, w1 as int, o0 as int, o1 as int, denom as int) as u8,
            forall|k: int| i <= k < output@.len() ==> #[trigger] output@[k] == old(output)@[k],
        decreases n - i,
    {
        let p0 = pred_l0[i] as i32;
        let p1 = pred_l1[i] as i32;
        assert(-8388608 <= p0 * w0 <= 8388608) by (nonlinear_arith) requires 0 <= p0 <= 255, -32768 <= w0 <= 32767;
        assert(-8388608 <= p1 * w1 <= 8388608) by (nonlinear_arith) requires 0 <= p1 <= 255, -32768 <= w1 <= 32767;
        let v = asr(p0 * w0 + p1 * w1 + round, (denom + 1) as u32) + asr(o0 + o1 + 1, 1);
        proof {
            lemma2_to64();
        }
        output[i] = clip_u8(v);
        i = i + 1;
    }
}

impl WeightedPredParams {
    /// Weight list-0 luma samples in place.
    pub fn apply_luma_l0(&self, pred: &mut [u8])
        requires
            old(pred)@.len() == 0 || 1 <= self.luma_log2_weight_denom <= 31,
        ensures
            final(pred)@.len() == old(pred)@.len(),
            forall|k: int| 0 <= k < old(pred)@.len() ==> #[trigger] final(pred)@[k] == weighted_sample(old(pred)@[k] as int,
                self.luma_weight_l0 as int, self.luma_offset_l0 as int, self.luma_log2_weight_denom as int) as u8,
    {
        weight_uni(pred, self.luma_weight_l0 as i32, self.luma_offset_l0 as i32, self.luma_log2_weight_denom);
    }

    /// Weight list-1 luma samples in place.
    pub fn apply_luma_l1(&self, pred: &mut [u8])
        requires
            old(pred)@.len() == 0 || 1 <= self.luma_log2_weight_denom <= 31,
        ensures
            final(pred)@.len() == old(pred)@.len(),
            forall|k: int| 0 <= k < old(pred)@.len() ==> #[trigger] final(pred)@[k] == weighted_sample(old(pred)@[k] as int,
                self.luma_weight_l1 as int, self.luma_offset_l1 as int, self.luma_log2_weight_denom as int) as u8,
    {
        weight_uni(pred, self.luma_weight_l1 as i32, self.luma_offset_l1 as i32, self.luma_log2_weight_denom);
    }

    /// Combine two luma predictions with their weights into `output`; one output
    /// sample per sample of `pred_l0`.
    pub fn apply_luma_bi(&self, pred_l0: &[u8], pred_l1: &[u8], output: &mut [u8])
        requires
            pred_l0@.len() == 0 || self.luma_log2_weight_denom <= 30,
            pred_l1@.len() >= pred_l0@.len(),
            old(output)@.len() >= pred_l0@.len(),
        ensures
            final(output)@.len() == old(output)@.len(),
            forall|k: int| 0 <= k < pred_l0@.len() ==> #[trigger] final(output)@[k] == weighted_bi_sample(
                pred_l0@[k] as int, pred_l1@[k] as int, self.luma_weight_l0 as int, self.luma_weight_l1 as int,
                self.luma_offset_l0 as int, self.luma_offset_l1 as int, self.luma_log2_weight_denom as int) as u8,
            forall|k: int| pred_l0@.len() <= k < old(output)@.len() ==> #[trigger] final(output)@[k] == old(output)@[k],
    {
        weight_bi(pred_l0, pred_l1, output, self.luma_weight_l0 as i32, self.luma_weight_l1 as i32,
            self.luma_offset_l0 as i32, self.luma_offset_l1 as i32, self.luma_log2_weight_denom);
    }

    /// Weight list-0 Cb and Cr samples in place.
    pub fn apply_chroma_l0(&self, pred_cb: &mut [u8], pred_cr: &mut [u8])
        requires
            (old(pred_cb)@.len() == 0 && old(pred_cr)@.len() == 0) || 1 <= self.chroma_log2_weight_denom <= 31,
        ensures
            final(pred_cb)@.len() == old(pred_cb)@.len(),
            final(pred_cr)@.len() == old(pred_cr)@.len(),
            forall|k: int| 0 <= k < old(pred_cb)@.len() ==> #[trigger] final(pred_cb)@[k] == weighted_sample(old(pred_cb)@[k] as int,
                self.chroma_weight_l0@[0] as int, self.chroma_offset_l0@[0] as int, self.chroma_log2_weight_denom as int) as u8,
            forall|k: int| 0 <= k < old(pred_cr)@.len() ==> #[trigger] final(pred_cr)@[k] == weighted_sample(old(pred_cr)@[k] as int,
                self.chroma_weight_l0@[1] as int, self.chroma_offset_l0@[1] as int, self.chroma_log2_weight_denom as int) as u8,
    {
        let denom = self.chroma_log2_weight_denom;
        weight_uni(pred_cb, self.chroma_weight_l0[0] as i32, self.chroma_offset_l0[0] as i32, denom);
        weight_uni(pred_cr, self.chroma_weight_l0[1] as i32, self.chroma_offset_l0[1] as i32, denom);
    }

    /// Combine two Cb and two Cr predictions with their weights.
    pub fn apply_chroma_bi(&self, pred_l0_cb: &[u8], pred_l0_cr: &[u8], pred_l1_cb: &[u8], pred_l1_cr: &[u8],
        output_cb: &mut [u8], output_cr: &mut [u8])
        requires
            (pred_l0_cb@.len() == 0 && pred_l0_cr@.len() == 0) || self.chroma_log2_weight_denom <= 30,
            pred_l1_cb@.len() >= pred_l0_cb@.len(),
            pred_l1_cr@.len() >= pred_l0_cr@.len(),
            old(output_cb)@.len() >= pred_l0_cb@.len(),
            old(output_cr)@.len() >= pred_l0_cr@.len(),
        ensures
            final(output_cb)@.len() == old(output_cb)@.len(),
            final(output_cr)@.len() == old(output_cr)@.len(),
            forall|k: int| 0 <= k < pred_l0_cb@.len() ==> #[trigger] final(output_cb)@[k] == weighted_bi_sample(
                pred_l0_cb@[k] as int, pred_l1_cb@[k] as int, self.chroma_weight_l0@[0] as int, self.chroma_weight_l1@[0] as int,
                self.chroma_offset_l0@[0] as int, self.chroma_offset_l1@[0] as int, self.chroma_log2_weight_denom as int) as u8,
            forall|k: int| 0 <= k < pred_l0_cr@.len() ==> #[trigger] final(output_cr)@[k] == weighted_bi_sample(
                pred_l0_cr@[k] as int, pred_l1_cr@[k] as int, self.chroma_weight_l0@[1] as int, self.chroma_weight_l1@[1] as int,
                self.chroma_offset_l0@[1] as int, self.chroma_offset_l1@[1] as int, self.chroma_log2_weight_denom as int) as u8,
            forall|k: int| pred_l0_cb@.len() <= k < old(output_cb)@.len() ==> #[trigger] final(output_cb)@[k] == old(output_cb)@[k],
            forall|k: int| pred_l0_cr@.len() <= k < old(output_cr)@.len() ==> #[trigger] final(output_cr)@[k] == old(output_cr)@[k],
    {
        let denom = self.chroma_log2_weight_denom;
        weight_bi(pred_l0_cb, pred_l1_cb, output_cb, self.chroma_weight_l0[0] as i32, self.chroma_weight_l1[0] as i32,
            self.chroma_offset_l0[0] as i32, self.chroma_offset_l1[0] as i32, denom);
        weight_bi(pred_l0_cr, pred_l1_cr, output_cr, self.chroma_weight_l0[1] as i32, self.chroma_weight_l1[1] as i32,
            self.chroma_offset_l0[1] as i32, self.chroma_offset_l1[1] as i32, denom);
    }
}

/// With the neutral weight `2^denom` and no offset, uni-directional weighting
/// leaves every sample as it is.
pub proof fn lemma_neutral_weight_is_identity(s: u8, denom: nat)
    requires
        1 <= denom <= 30,
    ensures
        weighted_sample(s as int, pow2(denom) as int, 0, denom as int) == s as int,
{
    let d = pow2(denom) as int;
    let h = pow2((denom - 1) as nat) as int;
    vstd::arithmetic::power2::lemma_pow2_unfold(denom);
    vstd::arithmetic::power2::lemma_pow2_pos((denom - 1) as nat);
    assert(d == 2 * h);
    assert((s * d + h) / d == s as int) by (nonlinear_arith)
        requires d == 2 * h, h > 0, 0 <= s <= 255,
    {
        vstd::arithmetic::div_mod::lemma_fundamental_div_mod_converse(s * d + h, d, s as int, h);
    }
}

/// Bi-directional weighting of two equal predictions with equal weights and offsets
/// is uni-directional weighting of that prediction: the doubled sum and the doubled
/// rounding term meet the doubled divisor, and the mean of two equal offsets is the
/// offset.
pub proof fn lemma_bi_of_equal_is_uni(p: int, w: int, o: int, denom: nat)
    requires
        1 <= denom <= 30,
    ensures
        weighted_bi_sample(p, p, w, w, o, o, denom as int) == weighted_sample(p, w, o, denom as int),
{
    let d = pow2(denom) as int;
    let h = pow2((denom - 1) as nat) as int;
    vstd::arithmetic::power2::lemma_pow2_unfold(denom);
    vstd::arithmetic::power2::lemma_pow2_unfold(denom + 1);
    vstd::arithmetic::power2::lemma_pow2_pos(denom);
    assert(pow2((denom + 1) as nat) as int == 2 * d);
    let n = p * w + h;
    assert(p * w + p * w + d == 2 * n);
    vstd::arithmetic::div_mod::lemma_fundamental_div_mod(n, d);
    vstd::arithmetic::div_mod::lemma_mod_bound(n, d);
    let q = n / d;
    let r = n % d;
    assert(2 * n == (2 * d) * q + 2 * r) by (nonlinear_arith)
        requires n == d * q + r;
    vstd::arithmetic::div_mod::lemma_fundamental_div_mod_converse(2 * n, 2 * d, q, 2 * r);
    assert((o + o + 1) / 2 == o);
}

} // verus!
