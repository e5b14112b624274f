//! The deblocking filter: edge thresholds from the QP and the boundary strength,
//! and the filtering of luma and chroma block edges.
use vstd::prelude::*;
use crate::error::Result;
use super::arith::{asr, clip3, clip_pixel, clip_u8};
use crate::filter::lemma_row_col_unique;

verus! {

/// Boundary strength of an edge (0 to 4).
#[derive(Debug, Clone, Copy, PartialEq, Eq, Structural)]
pub struct FilterStrength {
    pub bs: u8,
}

#[allow(non_snake_case)]
impl FilterStrength {
    /// Bs 4: an intra macroblock edge.
    pub fn STRONG() -> (f: FilterStrength)
        ensures
            f.bs == 4,
    {
        FilterStrength { bs: 4 }
    }

    /// Bs 3: one side has coded residual.
    pub fn MEDIUM() -> (f: FilterStrength)
        ensures
            f.bs == 3,
    {
        FilterStrength { bs: 3 }
    }

    /// Bs 1: motion or reference differences.
    pub fn WEAK() -> (f: FilterStrength)
        ensures
            f.bs == 1,
    {
        FilterStrength { bs: 1 }
    }

    /// Bs 0: no filtering.
    pub fn NONE() -> (f: FilterStrength)
        ensures
            f.bs == 0,
    {
        FilterStrength { bs: 0 }
    }
}

/// Alpha thresholds from index 16 on (below it alpha is 0).
pub open spec fn alpha_tail() -> Seq<i32> {
    seq![4i32, 4, 5, 6, 7, 8, 9, 10, 12, 13, 15, 17, 20, 22, 25, 28, 32, 36, 40, 45, 50, 56, 63, 71, 80, 90, 101, 113, 127, 144, 162, 182, 203, 226, 255, 255]
}

/// Beta thresholds from index 16 on (below it beta is 0).
pub open spec fn beta_tail() -> Seq<i32> {
    seq![2i32, 2, 2, 3, 3, 3, 3, 4, 4, 4, 6, 6, 7, 7, 8, 8, 9, 9, 10, 10, 11, 11, 12, 12, 13, 13, 14, 14, 15, 15, 16, 16, 17, 17, 18, 18]
}

/// tc0 thresholds from index 17 on, for Bs 1, 2 and 3 (below it tc0 is 0).
pub open spec fn tc0_tail(bs: int) -> Seq<i32> {
    if bs == 1 { seq![0i32, 0, 0, 0, 0, 0, 1, 1, 1, 1, 1, 1, 1, 1, 1, 1, 2, 2, 2, 2, 3, 3, 3, 4, 4, 4, 5, 6, 6, 7, 8, 9, 10, 11, 13] }
    else if bs == 2 { seq![0i32, 0, 0, 0, 1, 1, 1, 1, 1, 1, 1, 1, 1, 1, 2, 2, 2, 2, 3, 3, 3, 4, 4, 5, 5, 6, 7, 8, 8, 10, 11, 12, 13, 15, 17] }
    else { seq![1i32, 1, 1, 1, 1, 1, 1, 1, 1, 1, 2, 2, 2, 2, 3, 3, 3, 4, 4, 4, 5, 6, 6, 7, 8, 9, 10, 11, 13, 14, 16, 18, 20, 23, 25] }
}

/// The alpha threshold at index `q` in `[0, 51]`.
pub open spec fn alpha_at(q: int) -> int {
    if q < 16 { 0 } else { alpha_tail()[q - 16] as int }
}

/// The beta threshold at index `q` in `[0, 51]`.
pub open spec fn beta_at(q: int) -> int {
    if q < 16 { 0 } else { beta_tail()[q - 16] as int }
}

/// The tc0 threshold at index `q` in `[0, 51]` for `bs` in `1..=3`.
pub open spec fn tc0_at(q: int, bs: int) -> int {
    if q < 17 { 0 } else { tc0_tail(bs)[q - 17] as int }
}

/// The (alpha, beta) thresholds for `qp`, clipped to `[0, 51]`.
pub fn calc_alpha_beta(qp: i32) -> (r: (i32, i32))
    ensures
        r.0 == alpha_at(clip3(0, 51, qp as int)),
        r.1 == beta_at(clip3(0, 51, qp as int)),
        0 <= r.0 <= 255,
        0 <= r.1 <= 18,
{
    let q: i32 = if qp < 0 { 0 } else if qp > 51 { 51 } else { qp };
    if q < 16 {
        return (0, 0);
    }
    let a: [i32; 36] = [4, 4, 5, 6, 7, 8, 9, 10, 12, 13, 15, 17, 20, 22, 25, 28, 32, 36, 40, 45, 50, 56, 63, 71, 80, 90, 101, 113, 127, 144, 162, 182, 203, 226, 255, 255];
    let b: [i32; 36] = [2, 2, 2, 3, 3, 3, 3, 4, 4, 4, 6, 6, 7, 7, 8, 8, 9, 9, 10, 10, 11, 11, 12, 12, 13, 13, 14, 14, 15, 15, 16, 16, 17, 17, 18, 18];
    let idx = (q - 16) as usize;
    assert(a@ =~= alpha_tail());
    assert(b@ =~= beta_tail());
    (a[idx], b[idx])
}

/// The tc0 threshold for `qp` (clipped to `[0, 51]`) and boundary strength `bs`:
/// 0 where `bs` is 0, 4 or above 4.
pub fn calc_tc0(qp: i32, bs: u8) -> (r: i32)
    ensures
        r == (if bs == 0 || bs >= 4 { 0 } else { tc0_at(clip3(0, 51, qp as int), bs as int) }),
        0 <= r <= 25,
{
    if bs == 0 || bs > 4 {
        return 0;
    }
    if bs == 4 {
        return 0;
    }
    let q: i32 = if qp < 0 { 0 } else if qp > 51 { 51 } else { qp };
    if q < 17 {
        return 0;
    }
    let t1: [i32; 35] = [0, 0, 0, 0, 0, 0, 1, 1, 1, 1, 1, 1, 1, 1, 1, 1, 2, 2, 2, 2, 3, 3, 3, 4, 4, 4, 5, 6, 6, 7, 8, 9, 10, 11, 13];
    let t2: [i32; 35] = [0, 0, 0, 0, 1, 1, 1, 1, 1, 1, 1, 1, 1, 1, 2, 2, 2, 2, 3, 3, 3, 4, 4, 5, 5, 6, 7, 8, 8, 10, 11, 12, 13, 15, 17];
    let t3: [i32; 35] = [1, 1, 1, 1, 1, 1, 1, 1, 1, 1, 2, 2, 2, 2, 3, 3, 3, 4, 4, 4, 5, 6, 6, 7, 8, 9, 10, 11, 13, 14, 16, 18, 20, 23, 25];
    assert(t1@ =~= tc0_tail(1));
    assert(t2@ =~= tc0_tail(2));
    assert(t3@ =~= tc0_tail(3));
    let idx = (q - 17) as usize;
    if bs == 1 { t1[idx] } else if bs == 2 { t2[idx] } else { t3[idx] }
}

/// `|x|`.
pub open spec fn abs(x: int) -> int {
    if x < 0 { -x } else { x }
}

/// The edge is filtered: the step across it is below alpha and the steps beside it
/// are below beta.
pub open spec fn edge_active(p0: int, p1: int, q0: int, q1: int, alpha: int, beta: int) -> bool {
    abs(p0 - q0) < alpha && abs(p1 - p0) < beta && abs(q1 - q0) < beta
}

/// A filtered sample: the value clipped to `[0, 255]`.
pub open spec fn px(x: int) -> Option<u8> {
    Some(clip_pixel(x) as u8)
}

/// The strong-filter writes on one side of the edge, with `x` the samples of this
/// side (from the edge outwards) and `y` those of the other side; `full` selects the
/// three-tap smoothing.
pub open spec fn strong_side(x3: int, x2: int, x1: int, x0: int, y0: int, y1: int, full: bool) -> (Option<u8>, Option<u8>, Option<u8>) {
    if full {
        (px((x2 + 2 * x1 + 2 * x0 + 2 * y0 + y1 + 4) / 8), px((x2 + x1 + x0 + y0 + 2) / 4),
            px((2 * x3 + 3 * x2 + x1 + x0 + y0 + 4) / 8))
    } else {
        (px((2 * x1 + x0 + y1 + 2) / 4), None, None)
    }
}

/// The normal-filter write of the second sample `x1` of one side, when that side is
/// smooth (`x2` close to `x0`) and tc0 is positive.
pub open spec fn weak_side(x2: int, x1: int, p0: int, q0: int, tc0: int, smooth: bool) -> Option<u8> {
    if smooth && tc0 > 0 {
        px(x1 + clip3(-tc0, tc0, (x2 + (p0 + q0 + 1) / 2 - x1 * 2) / 2))
    } else {
        None
    }
}

/// The clipped correction of the normal filter across the edge.
pub open spec fn edge_delta(p1: int, p0: int, q0: int, q1: int, tc: int) -> int {
    clip3(-tc, tc, ((q0 - p0) * 4 + (p1 - q1) + 4) / 8)
}

/// The new samples of one luma line `p3 p2 p1 p0 | q0 q1 q2 q3` (indices 0 to 7):
/// `Some` where the filter writes, `None` where the sample stays.
#[verifier::opaque]
pub open spec fn luma_line_filter(v: Seq<u8>, alpha: int, beta: int, tc0: int, bs: u8) -> Seq<Option<u8>> {
    let (p3, p2, p1, p0) = (v[0] as int, v[1] as int, v[2] as int, v[3] as int);
    let (q0, q1, q2, q3) = (v[4] as int, v[5] as int, v[6] as int, v[7] as int);
    let ap = abs(p2 - p0) < beta;
    let aq = abs(q2 - q0) < beta;
    if !edge_active(p0, p1, q0, q1, alpha, beta) {
        seq![None, None, None, None, None, None, None, None]
    } else if bs == 4 {
        let small = abs(p0 - q0) < alpha / 4 + 2;
        let (np0, np1, np2) = strong_side(p3, p2, p1, p0, q0, q1, ap && small);
        let (nq0, nq1, nq2) = strong_side(q3, q2, q1, q0, p0, p1, aq && small);
        seq![None, np2, np1, np0, nq0, nq1, nq2, None]
    } else {
        let tc = tc0 + (if ap { 1int } else { 0 }) + (if aq { 1int } else { 0 });
        let delta = edge_delta(p1, p0, q0, q1, tc);
        seq![None, None, weak_side(p2, p1, p0, q0, tc0, ap), px(p0 + delta), px(q0 - delta),
            weak_side(q2, q1, p0, q0, tc0, aq), None, None]
    }
}

/// The order in which the luma filter writes its taps.
pub open spec fn luma_write_order(bs: u8) -> Seq<int> {
    if bs == 4 { seq![3int, 2, 1, 4, 5, 6] } else { seq![3int, 4, 2, 5] }
}

/// Apply the writes of `w` at the positions `pos`, in the given order of taps.
pub open spec fn apply_writes(s: Seq<u8>, pos: Seq<int>, w: Seq<Option<u8>>, order: Seq<int>) -> Seq<u8>
    decreases order.len(),
{
    if order.len() == 0 {
        s
    } else {
        let k = order[0];
        let s1 = match w[k] {
            Some(x) => s.update(pos[k], x),
            None => s,
        };
        apply_writes(s1, pos, w, order.drop_first())
    }
}

/// The sample positions of tap `k` (0 to `taps - 1`) of line `i`: the edge sits
/// between taps `taps / 2 - 1` and `taps / 2`; lines start `db` apart and taps are
/// `step` apart.
pub open spec fn tap_positions(b0: int, db: int, step: int, i: int, taps: int) -> Seq<int> {
    line_positions(b0 + i * db, step, taps)
}

/// The positions of the `taps` taps of a line whose edge sits at `base`.
pub open spec fn line_positions(base: int, step: int, taps: int) -> Seq<int> {
    Seq::new(taps as nat, |k: int| base + (k - taps / 2) * step)
}

/// The samples at the given positions.
pub open spec fn read_taps(s: Seq<u8>, pos: Seq<int>) -> Seq<u8> {
    Seq::new(pos.len(), |k: int| s[pos[k]])
}

/// The samples after filtering the first `n` luma lines.
pub open spec fn luma_lines(s: Seq<u8>, b0: int, db: int, step: int, n: nat, alpha: int, beta: int, tc0: int, bs: u8) -> Seq<u8>
    decreases n,
{
    if n == 0 {
        s
    } else {
        let prev = luma_lines(s, b0, db, step, (n - 1) as nat, alpha, beta, tc0, bs);
        let pos = tap_positions(b0, db, step, n - 1, 8);
        apply_writes(prev, pos, luma_line_filter(read_taps(prev, pos), alpha, beta, tc0, bs), luma_write_order(bs))
    }
}

/// The new samples of one chroma line `p1 p0 | q0 q1` (indices 0 to 3).
#[verifier::opaque]
pub open spec fn chroma_line_filter(v: Seq<u8>, alpha: int, beta: int, tc0: int) -> Seq<Option<u8>> {
    let (p1, p0, q0, q1) = (v[0] as int, v[1] as int, v[2] as int, v[3] as int);
    if !edge_active(p0, p1, q0, q1, alpha, beta) {
        seq![None, None, None, None]
    } else {
        let delta = edge_delta(p1, p0, q0, q1, tc0);
        seq![None, px(p0 + delta), px(q0 - delta), None]
    }
}

/// The samples after filtering the first `n` chroma lines.
pub open spec fn chroma_lines(s: Seq<u8>, b0: int, db: int, step: int, n: nat, alpha: int, beta: int, tc0: int) -> Seq<u8>
    decreases n,
{
    if n == 0 {
        s
    } else {
        let prev = chroma_lines(s, b0, db, step, (n - 1) as nat, alpha, beta, tc0);
        let pos = tap_positions(b0, db, step, n - 1, 4);
        apply_writes(prev, pos, chroma_line_filter(read_taps(prev, pos), alpha, beta, tc0), seq![1int, 2])
    }
}

fn abs_i32(x: i32) -> (r: i32)
    requires
        x > i32::MIN,
    ensures
        r == abs(x as int),
{
    if x < 0 { -x } else { x }
}

/// Whether an edge with samples `p1 p0 | q0 q1` is filtered: the step across it is
/// below alpha and the steps beside it below beta.
pub fn should_filter(p0: i32, p1: i32, q0: i32, q1: i32, alpha: i32, beta: i32) -> (r: bool)
    requires
        i32::MIN < p0 - q0 <= i32::MAX,
        i32::MIN < p1 - p0 <= i32::MAX,
        i32::MIN < q1 - q0 <= i32::MAX,
    ensures
        r == edge_active(p0 as int, p1 as int, q0 as int, q1 as int, alpha as int, beta as int),
{
    abs_i32(p0 - q0) < alpha && abs_i32(p1 - p0) < beta && abs_i32(q1 - q0) < beta
}

fn clip_delta(x: i32, t: i32) -> (r: i32)
    requires
        t >= 0,
    ensures
        r == clip3(-(t as int), t as int, x as int),
{
    if x < -t { -t } else if x > t { t } else { x }
}

fn strong_side_exec(x3: i32, x2: i32, x1: i32, x0: i32, y0: i32, y1: i32, full: bool) -> (r: (Option<u8>, Option<u8>, Option<u8>))
    requires
        0 <= x3 <= 255, 0 <= x2 <= 255, 0 <= x1 <= 255, 0 <= x0 <= 255, 0 <= y0 <= 255, 0 <= y1 <= 255,
    ensures
        r == strong_side(x3 as int, x2 as int, x1 as int, x0 as int, y0 as int, y1 as int, full),
{
    proof {
        vstd::arithmetic::power2::lemma2_to64();
    }
    if full {
        (Some(clip_u8(asr(x2 + 2 * x1 + 2 * x0 + 2 * y0 + y1 + 4, 3))),
            Some(clip_u8(asr(x2 + x1 + x0 + y0 + 2, 2))),
            Some(clip_u8(asr(2 * x3 + 3 * x2 + x1 + x0 + y0 + 4, 3))))
    } else {
        (Some(clip_u8(asr(2 * x1 + x0 + y1 + 2, 2))), None, None)
    }
}

fn weak_side_exec(x2: i32, x1: i32, p0: i32, q0: i32, tc0: i32, smooth: bool) -> (r: Option<u8>)
    requires
        0 <= x2 <= 255, 0 <= x1 <= 255, 0 <= p0 <= 255, 0 <= q0 <= 255,
    ensures
        r == weak_side(x2 as int, x1 as int, p0 as int, q0 as int, tc0 as int, smooth),
{
    proof {
        vstd::arithmetic::power2::lemma2_to64();
    }
    if smooth && tc0 > 0 {
        let d = clip_delta(asr(x2 + asr(p0 + q0 + 1, 1) - x1 * 2, 1), tc0);
        Some(clip_u8(x1 + d))
    } else {
        None
    }
}

fn edge_delta_exec(p1: i32, p0: i32, q0: i32, q1: i32, tc: i32) -> (r: i32)
    requires
        0 <= p1 <= 255, 0 <= p0 <= 255, 0 <= q0 <= 255, 0 <= q1 <= 255,
        tc >= 0,
    ensures
        r == edge_delta(p1 as int, p0 as int, q0 as int, q1 as int, tc as int),
        -(tc as int) <= r <= tc,
{
    proof {
        vstd::arithmetic::power2::lemma2_to64();
    }
    clip_delta(asr((q0 - p0) * 4 + (p1 - q1) + 4, 3), tc)
}

#[verifier::rlimit(100)]
#[verifier::spinoff_prover]
fn luma_line(v: &[u8; 8], alpha: i32, beta: i32, tc0: i32, bs: u8) -> (w: [Option<u8>; 8])
    requires
        bs == 4 || 0 <= tc0 <= i32::MAX - 2,
    ensures
        w@ == luma_line_filter(v@, alpha as int, beta as int, tc0 as int, bs),
{
    let p3 = v[0] as i32;
    let p2 = v[1] as i32;
    let p1 = v[2] as i32;
    let p0 = v[3] as i32;
    let q0 = v[4] as i32;
    let q1 = v[5] as i32;
    let q2 = v[6] as i32;
    let q3 = v[7] as i32;
    proof {
        reveal(luma_line_filter);
    }
    if !should_filter(p0, p1, q0, q1, alpha, beta) {
        let w: [Option<u8>; 8] = [None, None, None, None, None, None, None, None];
        assert(w@ =~= luma_line_filter(v@, alpha as int, beta as int, tc0 as int, bs));
        return w;
    }
    let ap = abs_i32(p2 - p0) < beta;
    let aq = abs_i32(q2 - q0) < beta;
    if bs == 4 {
        proof {
            vstd::arithmetic::power2::lemma2_to64();
        }
        let small = abs_i32(p0 - q0) < asr(alpha, 2) + 2;
        let (np0, np1, np2) = strong_side_exec(p3, p2, p1, p0, q0, q1, ap && small);
        let (nq0, nq1, nq2) = strong_side_exec(q3, q2, q1, q0, p0, p1, aq && small);
        let w: [Option<u8>; 8] = [None, np2, np1, np0, nq0, nq1, nq2, None];
        assert(w@ =~= luma_line_filter(v@, alpha as int, beta as int, tc0 as int, bs));
        w
    } else {
        let tc = tc0 + (if ap { 1i32 } else { 0 }) + (if aq { 1i32 } else { 0 });
        let delta = edge_delta_exec(p1, p0, q0, q1, tc);
        let w: [Option<u8>; 8] = [None, None, weak_side_exec(p2, p1, p0, q0, tc0, ap), Some(clip_u8(p0 + delta)),
            Some(clip_u8(q0 - delta)), weak_side_exec(q2, q1, p0, q0, tc0, aq), None, None];
        assert(w@ =~= luma_line_filter(v@, alpha as int, beta as int, tc0 as int, bs));
        w
    }
}

fn chroma_line(v: &[u8; 4], alpha: i32, beta: i32, tc0: i32) -> (w: [Option<u8>; 4])
    requires
        0 <= tc0,
    ensures
        w@ == chroma_line_filter(v@, alpha as int, beta as int, tc0 as int),
{
    let p1 = v[0] as i32;
    let p0 = v[1] as i32;
    let q0 = v[2] as i32;
    let q1 = v[3] as i32;
    let mut w: [Option<u8>; 4] = [None, None, None, None];
    proof {
        reveal(chroma_line_filter);
    }
    if should_filter(p0, p1, q0, q1, alpha, beta) {
        proof {
            vstd::arithmetic::power2::lemma2_to64();
        }
        let delta = edge_delta_exec(p1, p0, q0, q1, tc0);
        w[1] = Some(clip_u8(p0 + delta));
        w[2] = Some(clip_u8(q0 - delta));
    }
    assert(w@ =~= chroma_line_filter(v@, alpha as int, beta as int, tc0 as int));
    w
}

/// Write the taps of `w` that are `Some` at `pos`, in the order `order`.
fn write_taps(samples: &mut [u8], pos: &[usize], w: &[Option<u8>], order: &[usize])
    requires
        w@.len() == pos@.len(),
        forall|j: int| 0 <= j < order@.len() ==> #[trigger] order@[j] < pos@.len(),
        forall|k: int| 0 <= k < pos@.len() ==> #[trigger] pos@[k] < old(samples)@.len(),
    ensures
        final(samples)@.len() == old(samples)@.len(),
        final(samples)@ == apply_writes(old(samples)@, pos@.map_values(|p: usize| p as int), w@,
            order@.map_values(|k: usize| k as int)),
{
    let ghost posi = pos@.map_values(|p: usize| p as int);
    let ghost ord = order@.map_values(|k: usize| k as int);
    let mut j: usize = 0;
    assert(ord.skip(0) =~= ord);
    while j < order.len()
        invariant
            0 <= j <= order@.len(),
            w@.len() == pos@.len(),
            samples@.len() == old(samples)@.len(),
            posi == pos@.map_values(|p: usize| p as int),
            ord == order@.map_values(|k: usize| k as int),
            forall|i: int| 0 <= i < order@.len() ==> #[trigger] order@[i] < pos@.len(),
            forall|k: int| 0 <= k < pos@.len() ==> #[trigger] pos@[k] < old(samples)@.len(),
            apply_writes(samples@, posi, w@, ord.skip(j as int)) == apply_writes(old(samples)@, posi, w@, ord),
        decreases order@.len() - j,
    {
        let k = order[j];
        assert(ord.skip(j as int).drop_first() =~= ord.skip(j as int + 1));
        assert(ord.skip(j as int)[0] == k as int);
        match w[k] {
            Some(x) => {
                samples[pos[k]] = x;
            },
            None => {},
        }
        j = j + 1;
    }
    assert(ord.skip(order@.len() as int) =~= Seq::<int>::empty());
}

/// The positions `base + (k - half) * step` for `k < taps` and the samples there.
fn gather(samples: &[u8], base: usize, step: usize, half: usize, taps: usize) -> (r: (Vec<usize>, Vec<u8>))
    requires
        taps == 2 * half,
        half <= 4,
        base >= half * step,
        base + (half - 1) * step < samples@.len(),
    ensures
        r.0@.map_values(|p: usize| p as int) == line_positions(base as int, step as int, taps as int),
        r.1@ == read_taps(samples@, line_positions(base as int, step as int, taps as int)),
        r.0@.len() == taps,
        forall|k: int| 0 <= k < taps ==> #[trigger] r.0@[k] < samples@.len(),
{
    let len = samples.len();
    let mut pos: Vec<usize> = Vec::new();
    let mut v: Vec<u8> = Vec::new();
    let mut k: usize = 0;
    assert(half * step <= 4 * step) by (nonlinear_arith) requires half <= 4;
    while k < taps
        invariant
            0 <= k <= taps,
            taps == 2 * half,
            half <= 4,
            len == samples@.len(),
            base >= half * step,
            base + (half - 1) * step < len,
            pos@.len() == k,
            v@.len() == k,
            forall|m: int| 0 <= m < k ==> #[trigger] pos@[m] as int == base + (m - half) * step,
            forall|m: int| 0 <= m < k ==> #[trigger] pos@[m] < len,
            forall|m: int| 0 <= m < k ==> #[trigger] v@[m] == samples@[pos@[m] as int],
        decreases taps - k,
    {
        assert(k * step <= (2 * half - 1) * step && (2 * half - 1) * step == half * step + (half - 1) * step)
            by (nonlinear_arith) requires k < 2 * half, half >= 1;
        let ks = k * step;
        let hs = half * step;
        let p = base - hs + ks;
        assert(p == base + (k - half) * step) by (nonlinear_arith)
            requires p == base - hs + ks, ks == k * step, hs == half * step;
        pos.push(p);
        v.push(samples[p]);
        k = k + 1;
    }
    assert(pos@.map_values(|p: usize| p as int) =~= line_positions(base as int, step as int, taps as int));
    assert(v@ =~= read_taps(samples@, line_positions(base as int, step as int, taps as int)));
    (pos, v)
}

fn luma_edge_line(samples: &mut [u8], base: usize, step: usize, alpha: i32, beta: i32, tc0: i32, bs: u8)
    requires
        bs == 4 || 0 <= tc0 <= i32::MAX - 2,
        base >= 4 * step,
        base + 3 * step < old(samples)@.len(),
    ensures
        final(samples)@.len() == old(samples)@.len(),
        final(samples)@ == apply_writes(old(samples)@, line_positions(base as int, step as int, 8),
            luma_line_filter(read_taps(old(samples)@, line_positions(base as int, step as int, 8)), alpha as int, beta as int, tc0 as int, bs),
            luma_write_order(bs)),
{
    let (pos, v) = gather(samples, base, step, 4, 8);
    let va: [u8; 8] = [v[0], v[1], v[2], v[3], v[4], v[5], v[6], v[7]];
    assert(va@ =~= v@);
    let w = luma_line(&va, alpha, beta, tc0, bs);
    if bs == 4 {
        let order: [usize; 6] = [3, 2, 1, 4, 5, 6];
        assert(order@.map_values(|k: usize| k as int) =~= luma_write_order(bs));
        write_taps(samples, pos.as_slice(), &w, &order);
    } else {
        let order: [usize; 4] = [3, 4, 2, 5];
        assert(order@.map_values(|k: usize| k as int) =~= luma_write_order(bs));
        write_taps(samples, pos.as_slice(), &w, &order);
    }
}

fn chroma_edge_line(samples: &mut [u8], base: usize, step: usize, alpha: i32, beta: i32, tc0: i32)
    requires
        0 <= tc0,
        base >= 2 * step,
        base + step < old(samples)@.len(),
    ensures
        final(samples)@.len() == old(samples)@.len(),
        final(samples)@ == apply_writes(old(samples)@, line_positions(base as int, step as int, 4),
            chroma_line_filter(read_taps(old(samples)@, line_positions(base as int, step as int, 4)), alpha as int, beta as int, tc0 as int),
            seq![1int, 2]),
{
    let (pos, v) = gather(samples, base, step, 2, 4);
    let va: [u8; 4] = [v[0], v[1], v[2], v[3]];
    assert(va@ =~= v@);
    let w = chroma_line(&va, alpha, beta, tc0);
    let order: [usize; 2] = [1, 2];
    assert(order@.map_values(|k: usize| k as int) =~= seq![1int, 2]);
    write_taps(samples, pos.as_slice(), &w, &order);
}

/// Filter four luma lines whose edges sit at `b0 + i * db`, with taps `step` apart.
#[verifier::rlimit(100)]
#[verifier::spinoff_prover]
fn luma_edge(samples: &mut [u8], b0: usize, db: usize, step: usize, alpha: i32, beta: i32, tc0: i32, bs: u8)
    requires
        bs == 4 || 0 <= tc0 <= i32::MAX - 2,
        b0 >= 4 * step,
        b0 + 3 * db + 3 * step < old(samples)@.len(),
    ensures
        final(samples)@ == luma_lines(old(samples)@, b0 as int, db as int, step as int, 4, alpha as int, beta as int, tc0 as int, bs),
{
    let len = samples.len();
    let mut i: usize = 0;
    while i < 4
        invariant
            0 <= i <= 4,
            len == samples@.len(),
            bs == 4 || 0 <= tc0 <= i32::MAX - 2,
            b0 >= 4 * step,
            b0 + 3 * db + 3 * step < len,
            samples@ == luma_lines(old(samples)@, b0 as int, db as int, step as int, i as nat, alpha as int, beta as int, tc0 as int, bs),
        decreases 4 - i,
    {
        assert(i * db <= 3 * db) by (nonlinear_arith) requires i < 4;
        let idb = i * db;
        let base = b0 + idb;
        luma_edge_line(samples, base, step, alpha, beta, tc0, bs);
        i = i + 1;
    }
}

/// Filter two chroma lines whose edges sit at `b0 + i * db`, with taps `step` apart.
fn chroma_edge(samples: &mut [u8], b0: usize, db: usize, step: usize, alpha: i32, beta: i32, tc0: i32)
    requires
        0 <= tc0,
        b0 >= 2 * step,
        b0 + db + step < old(samples)@.len(),
    ensures
        final(samples)@ == chroma_lines(old(samples)@, b0 as int, db as int, step as int, 2, alpha as int, beta as int, tc0 as int),
{
    let len = samples.len();
    let mut i: usize = 0;
    while i < 2
        invariant
            0 <= i <= 2,
            len == samples@.len(),
            0 <= tc0,
            b0 >= 2 * step,
            b0 + db + step < len,
            samples@ == chroma_lines(old(samples)@, b0 as int, db as int, step as int, i as nat, alpha as int, beta as int, tc0 as int),
        decreases 2 - i,
    {
        assert(i * db <= db) by (nonlinear_arith) requires i < 2;
        let idb = i * db;
        let base = b0 + idb;
        chroma_edge_line(samples, base, step, alpha, beta, tc0);
        i = i + 1;
    }
}

/// Filter a vertical luma edge: four rows `stride` apart, each with taps
/// `p3 p2 p1 p0 | q0 q1 q2 q3` around `edge_offset`. Bs 0 changes nothing.
pub fn deblock_luma_edge_vertical(samples: &mut [u8], edge_offset: usize, stride: usize, alpha: i32, beta: i32, tc0: i32, bs: u8) -> (r: Result<()>)
    requires
        bs == 0 || (edge_offset >= 4 && edge_offset + 3 * stride + 3 < old(samples)@.len()),
        bs == 0 || bs == 4 || 0 <= tc0 <= i32::MAX - 2,
    ensures
        r is Ok,
        bs == 0 ==> final(samples)@ == old(samples)@,
        bs != 0 ==> final(samples)@ == luma_lines(old(samples)@, edge_offset as int, stride as int, 1, 4, alpha as int, beta as int, tc0 as int, bs),
{
    if bs == 0 {
        return Ok(());
    }
    luma_edge(samples, edge_offset, stride, 1, alpha, beta, tc0, bs);
    Ok(())
}

/// Filter a horizontal luma edge: four columns from `col_offset`, each with taps
/// on the rows `edge_row - 4` to `edge_row + 3`. Bs 0 changes nothing.
pub fn deblock_luma_edge_horizontal(samples: &mut [u8], edge_row: usize, col_offset: usize, stride: usize, alpha: i32, beta: i32, tc0: i32, bs: u8) -> (r: Result<()>)
    requires
        bs == 0 || (edge_row >= 4 && (edge_row + 3) * stride + col_offset + 3 < old(samples)@.len()),
        bs == 0 || bs == 4 || 0 <= tc0 <= i32::MAX - 2,
    ensures
        r is Ok,
        bs == 0 ==> final(samples)@ == old(samples)@,
        bs != 0 ==> final(samples)@ == luma_lines(old(samples)@, edge_row * stride + col_offset, 1, stride as int, 4, alpha as int, beta as int, tc0 as int, bs),
{
    if bs == 0 {
        return Ok(());
    }
    assert(edge_row * stride >= 4 * stride && (edge_row + 3) * stride == edge_row * stride + 3 * stride) by (nonlinear_arith)
        requires edge_row >= 4;
    let len = samples.len();
    let b0 = edge_row * stride + col_offset;
    luma_edge(samples, b0, 1, stride, alpha, beta, tc0, bs);
    Ok(())
}

/// Filter a vertical chroma edge: two rows `stride` apart, each with taps
/// `p1 p0 | q0 q1` around `edge_offset`. Bs 0 changes nothing.
pub fn deblock_chroma_edge_vertical(samples: &mut [u8], edge_offset: usize, stride: usize, alpha: i32, beta: i32, tc0: i32, bs: u8) -> (r: Result<()>)
    requires
        bs == 0 || (edge_offset >= 2 && edge_offset + stride + 1 < old(samples)@.len()),
        bs == 0 || 0 <= tc0,
    ensures
        r is Ok,
        bs == 0 ==> final(samples)@ == old(samples)@,
        bs != 0 ==> final(samples)@ == chroma_lines(old(samples)@, edge_offset as int, stride as int, 1, 2, alpha as int, beta as int, tc0 as int),
{
    if bs == 0 {
        return Ok(());
    }
    chroma_edge(samples, edge_offset, stride, 1, alpha, beta, tc0);
    Ok(())
}

/// Filter a horizontal chroma edge: two columns from `col_offset`, each with taps
/// on the rows `edge_row - 2` to `edge_row + 1`. Bs 0 changes nothing.
pub fn deblock_chroma_edge_horizontal(samples: &mut [u8], edge_row: usize, col_offset: usize, stride: usize, alpha: i32, beta: i32, tc0: i32, bs: u8) -> (r: Result<()>)
    requires
        bs == 0 || (edge_row >= 2 && (edge_row + 1) * stride + col_offset + 1 < old(samples)@.len()),
        bs == 0 || 0 <= tc0,
    ensures
        r is Ok,
        bs == 0 ==> final(samples)@ == old(samples)@,
        bs != 0 ==> final(samples)@ == chroma_lines(old(samples)@, edge_row * stride + col_offset, 1, stride as int, 2, alpha as int, beta as int, tc0 as int),
{
    if bs == 0 {
        return Ok(());
    }
    assert(edge_row * stride >= 2 * stride && (edge_row + 1) * stride == edge_row * stride + stride) by (nonlinear_arith)
        requires edge_row >= 2;
    let len = samples.len();
    let b0 = edge_row * stride + col_offset;
    chroma_edge(samples, b0, 1, stride, alpha, beta, tc0);
    Ok(())
}


/// `h` and `v` are `n` by `n` buffers, each the transpose of the other.
pub open spec fn transposed(h: Seq<u8>, v: Seq<u8>, n: int) -> bool {
    &&& h.len() == n * n
    &&& v.len() == n * n
    &&& forall|r: int, c: int| 0 <= r < n && 0 <= c < n ==> #[trigger] h[r * n + c] == v[c * n + r]
}

/// Tap `k` of `ph` is at row `rows[k]`, column `cols[k]` of an `n`-wide buffer, and
/// tap `k` of `pv` at the transposed place.
spec fn taps_transposed(ph: Seq<int>, pv: Seq<int>, n: int, rows: Seq<int>, cols: Seq<int>) -> bool {
    &&& ph.len() == pv.len() && rows.len() == ph.len() && cols.len() == ph.len()
    &&& forall|k: int| 0 <= k < ph.len() ==> 0 <= #[trigger] rows[k] < n && 0 <= cols[k] < n
        && ph[k] == rows[k] * n + cols[k] && pv[k] == cols[k] * n + rows[k]
}

proof fn lemma_cell_index(r: int, c: int, n: int)
    requires
        0 <= r < n,
        0 <= c < n,
    ensures
        0 <= r * n + c < n * n,
{
    assert(0 <= r * n + c < n * n) by (nonlinear_arith) requires 0 <= r < n, 0 <= c < n;
}

proof fn lemma_update_transposed(h: Seq<u8>, v: Seq<u8>, n: int, r0: int, c0: int, x: u8)
    requires
        transposed(h, v, n),
        0 <= r0 < n,
        0 <= c0 < n,
    ensures
        transposed(h.update(r0 * n + c0, x), v.update(c0 * n + r0, x), n),
{
    lemma_cell_index(r0, c0, n);
    lemma_cell_index(c0, r0, n);
    let h2 = h.update(r0 * n + c0, x);
    let v2 = v.update(c0 * n + r0, x);
    assert forall|r: int, c: int| 0 <= r < n && 0 <= c < n implies #[trigger] h2[r * n + c] == v2[c * n + r] by {
        lemma_cell_index(r, c, n);
        lemma_cell_index(c, r, n);
        if r * n + c == r0 * n + c0 {
            lemma_row_col_unique(r, c, r0, c0, n);
        } else if c * n + r == c0 * n + r0 {
            lemma_row_col_unique(c, r, c0, r0, n);
        }
    }
}

proof fn lemma_writes_transposed(h: Seq<u8>, v: Seq<u8>, n: int, ph: Seq<int>, pv: Seq<int>, rows: Seq<int>,
    cols: Seq<int>, w: Seq<Option<u8>>, order: Seq<int>)
    requires
        transposed(h, v, n),
        taps_transposed(ph, pv, n, rows, cols),
        forall|j: int| 0 <= j < order.len() ==> 0 <= #[trigger] order[j] < ph.len(),
    ensures
        transposed(apply_writes(h, ph, w, order), apply_writes(v, pv, w, order), n),
    decreases order.len(),
{
    if order.len() > 0 {
        let k = order[0];
        let (h1, v1) = match w[k] {
            Some(x) => {
                lemma_update_transposed(h, v, n, rows[k], cols[k], x);
                (h.update(ph[k], x), v.update(pv[k], x))
            },
            None => (h, v),
        };
        assert forall|j: int| 0 <= j < order.drop_first().len() implies 0 <= #[trigger] order.drop_first()[j] < ph.len() by {
            assert(order.drop_first()[j] == order[j + 1]);
        }
        lemma_writes_transposed(h1, v1, n, ph, pv, rows, cols, w, order.drop_first());
    }
}

proof fn lemma_line_taps_transposed(n: int, e: int, i: int)
    requires
        4 <= e,
        e + 4 <= n,
        0 <= i < 4,
    ensures
        taps_transposed(tap_positions(e * n, 1, n, i, 8), tap_positions(e, n, 1, i, 8), n,
            Seq::new(8, |k: int| e + k - 4), Seq::new(8, |k: int| i)),
{
    let ph = tap_positions(e * n, 1, n, i, 8);
    let pv = tap_positions(e, n, 1, i, 8);
    let rows = Seq::new(8, |k: int| e + k - 4);
    let cols = Seq::new(8, |k: int| i);
    assert forall|k: int| 0 <= k < 8 implies 0 <= #[trigger] rows[k] < n && 0 <= cols[k] < n
        && ph[k] == rows[k] * n + cols[k] && pv[k] == cols[k] * n + rows[k] by {
        assert(ph[k] == e * n + i * 1 + (k - 4) * n);
        assert(e * n + i + (k - 4) * n == (e + k - 4) * n + i) by (nonlinear_arith);
        assert(pv[k] == e + i * n + (k - 4) * 1);
    }
}

proof fn lemma_read_taps_transposed(h: Seq<u8>, v: Seq<u8>, n: int, ph: Seq<int>, pv: Seq<int>, rows: Seq<int>,
    cols: Seq<int>)
    requires
        transposed(h, v, n),
        taps_transposed(ph, pv, n, rows, cols),
    ensures
        read_taps(h, ph) == read_taps(v, pv),
{
    assert forall|k: int| 0 <= k < ph.len() implies #[trigger] read_taps(h, ph)[k] == read_taps(v, pv)[k] by {
        assert(0 <= rows[k] < n);
        assert(h[rows[k] * n + cols[k]] == v[cols[k] * n + rows[k]]);
    }
    assert(read_taps(h, ph) =~= read_taps(v, pv));
}

/// A horizontal luma edge filtered in a buffer is filtered exactly like the
/// vertical luma edge at the same place in the transposed buffer: for `n` by `n`
/// buffers `h` and `v`, each the transpose of the other, filtering the first `lines`
/// (up to four) columns of the edge above row `e` of `h` and rows of the edge left
/// of column `e` of `v` leaves them transposed.
pub proof fn lemma_deblock_transposed(h: Seq<u8>, v: Seq<u8>, n: int, e: int, alpha: int, beta: int, tc0: int,
    bs: u8, lines: nat)
    requires
        transposed(h, v, n),
        4 <= e,
        e + 4 <= n,
        lines <= 4,
    ensures
        transposed(luma_lines(h, e * n, 1, n, lines, alpha, beta, tc0, bs),
            luma_lines(v, e, n, 1, lines, alpha, beta, tc0, bs), n),
    decreases lines,
{
    if lines > 0 {
        let i = lines - 1;
        lemma_deblock_transposed(h, v, n, e, alpha, beta, tc0, bs, (lines - 1) as nat);
        let hp = luma_lines(h, e * n, 1, n, (lines - 1) as nat, alpha, beta, tc0, bs);
        let vp = luma_lines(v, e, n, 1, (lines - 1) as nat, alpha, beta, tc0, bs);
        let ph = tap_positions(e * n, 1, n, i, 8);
        let pv = tap_positions(e, n, 1, i, 8);
        let rows = Seq::new(8, |k: int| e + k - 4);
        let cols = Seq::new(8, |k: int| i);
        lemma_line_taps_transposed(n, e, i);
        lemma_read_taps_transposed(hp, vp, n, ph, pv, rows, cols);
        let w = luma_line_filter(read_taps(hp, ph), alpha, beta, tc0, bs);
        lemma_writes_transposed(hp, vp, n, ph, pv, rows, cols, w, luma_write_order(bs));
    }
}

/// The strong (Bs 4) luma filter decides each side of the edge on that side's own
/// samples: on the q side, `q0`, `q1` and `q2` get the three-tap smoothing
/// `(p1 + 2p0 + 2q0 + 2q1 + q2 + 4) >> 3`, `(p0 + q0 + q1 + q2 + 2) >> 2` and
/// `(p0 + q0 + q1 + 3q2 + 2q3 + 4) >> 3` exactly when `|q2 - q0| < beta` and
/// `|p0 - q0| < (alpha >> 2) + 2`; otherwise only `q0` becomes
/// `(2q1 + q0 + p1 + 2) >> 2` and `q1`, `q2` keep their values. The p side is the
/// mirror image, and `p3`, `q3` are never written.
pub proof fn lemma_luma_strong_filter(v: Seq<u8>, alpha: int, beta: int)
    requires
        v.len() == 8,
        edge_active(v[3] as int, v[2] as int, v[4] as int, v[5] as int, alpha, beta),
    ensures ({
        let w = luma_line_filter(v, alpha, beta, 0, 4);
        let (p3, p2, p1, p0) = (v[0] as int, v[1] as int, v[2] as int, v[3] as int);
        let (q0, q1, q2, q3) = (v[4] as int, v[5] as int, v[6] as int, v[7] as int);
        let small = abs(p0 - q0) < alpha / 4 + 2;
        &&& w.len() == 8
        &&& w[0] is None && w[7] is None
        &&& if abs(q2 - q0) < beta && small {
            &&& w[4] == px((p1 + 2 * p0 + 2 * q0 + 2 * q1 + q2 + 4) / 8)
            &&& w[5] == px((p0 + q0 + q1 + q2 + 2) / 4)
            &&& w[6] == px((p0 + q0 + q1 + 3 * q2 + 2 * q3 + 4) / 8)
        } else {
            &&& w[4] == px((2 * q1 + q0 + p1 + 2) / 4)
            &&& w[5] is None && w[6] is None
        }
        &&& if abs(p2 - p0) < beta && small {
            &&& w[3] == px((p2 + 2 * p1 + 2 * p0 + 2 * q0 + q1 + 4) / 8)
            &&& w[2] == px((p2 + p1 + p0 + q0 + 2) / 4)
            &&& w[1] == px((2 * p3 + 3 * p2 + p1 + p0 + q0 + 4) / 8)
        } else {
            &&& w[3] == px((2 * p1 + p0 + q1 + 2) / 4)
            &&& w[2] is None && w[1] is None
        }
    }),
{
    reveal(luma_line_filter);
}

/// Under the strong (Bs 4) luma filter, what is written on the q side of the edge
/// depends only on `p1`, `p0` and the q side's samples: two lines that agree there
/// get the same q-side writes, whatever their `p3` and `p2`; and symmetrically for
/// the p side.
pub proof fn lemma_luma_strong_sides_independent(v1: Seq<u8>, v2: Seq<u8>, alpha: int, beta: int)
    requires
        v1.len() == 8,
        v2.len() == 8,
    ensures
        (forall|k: int| 2 <= k < 8 ==> v1[k] == v2[k]) ==> {
            let w1 = luma_line_filter(v1, alpha, beta, 0, 4);
            let w2 = luma_line_filter(v2, alpha, beta, 0, 4);
            w1[4] == w2[4] && w1[5] == w2[5] && w1[6] == w2[6]
        },
        (forall|k: int| 0 <= k < 6 ==> v1[k] == v2[k]) ==> {
            let w1 = luma_line_filter(v1, alpha, beta, 0, 4);
            let w2 = luma_line_filter(v2, alpha, beta, 0, 4);
            w1[1] == w2[1] && w1[2] == w2[2] && w1[3] == w2[3]
        },
{
    if forall|k: int| 2 <= k < 8 ==> v1[k] == v2[k] {
        assert(v1[2] == v2[2] && v1[3] == v2[3] && v1[4] == v2[4] && v1[5] == v2[5]
            && v1[6] == v2[6] && v1[7] == v2[7]);
        if edge_active(v1[3] as int, v1[2] as int, v1[4] as int, v1[5] as int, alpha, beta) {
            lemma_luma_strong_filter(v1, alpha, beta);
            lemma_luma_strong_filter(v2, alpha, beta);
        } else {
            lemma_luma_line_idle(v1, alpha, beta, 0, 4);
            lemma_luma_line_idle(v2, alpha, beta, 0, 4);
        }
    }
    if forall|k: int| 0 <= k < 6 ==> v1[k] == v2[k] {
        assert(v1[0] == v2[0] && v1[1] == v2[1] && v1[2] == v2[2] && v1[3] == v2[3]
            && v1[4] == v2[4] && v1[5] == v2[5]);
        if edge_active(v1[3] as int, v1[2] as int, v1[4] as int, v1[5] as int, alpha, beta) {
            lemma_luma_strong_filter(v1, alpha, beta);
            lemma_luma_strong_filter(v2, alpha, beta);
        } else {
            lemma_luma_line_idle(v1, alpha, beta, 0, 4);
            lemma_luma_line_idle(v2, alpha, beta, 0, 4);
        }
    }
}

/// A luma line whose edge is not active is left alone.
proof fn lemma_luma_line_idle(v: Seq<u8>, alpha: int, beta: int, tc0: int, bs: u8)
    requires
        v.len() == 8,
        !edge_active(v[3] as int, v[2] as int, v[4] as int, v[5] as int, alpha, beta),
    ensures
        luma_line_filter(v, alpha, beta, tc0, bs).len() == 8,
        forall|k: int| 0 <= k < 8 ==> #[trigger] luma_line_filter(v, alpha, beta, tc0, bs)[k] is None,
{
    reveal(luma_line_filter);
}

/// The normal (Bs 1 to 3) luma filter: with `tc = tc0 + [|p2 - p0| < beta] +
/// [|q2 - q0| < beta]` and `delta` the correction
/// `((q0 - p0) * 4 + (p1 - q1) + 4) >> 3` clipped to `[-tc, tc]`, `p0` becomes
/// `p0 + delta` and `q0` becomes `q0 - delta`; `p1` is corrected (by at most tc0)
/// exactly when `|p2 - p0| < beta` and `tc0 > 0`, `q1` exactly when
/// `|q2 - q0| < beta` and `tc0 > 0`; `p3`, `p2`, `q2` and `q3` are never written.
pub proof fn lemma_luma_normal_filter(v: Seq<u8>, alpha: int, beta: int, tc0: int, bs: u8)
    requires
        v.len() == 8,
        1 <= bs <= 3,
        edge_active(v[3] as int, v[2] as int, v[4] as int, v[5] as int, alpha, beta),
    ensures ({
        let w = luma_line_filter(v, alpha, beta, tc0, bs);
        let (p2, p1, p0) = (v[1] as int, v[2] as int, v[3] as int);
        let (q0, q1, q2) = (v[4] as int, v[5] as int, v[6] as int);
        let tc = tc0 + (if abs(p2 - p0) < beta { 1int } else { 0 }) + (if abs(q2 - q0) < beta { 1int } else { 0 });
        let delta = clip3(-tc, tc, ((q0 - p0) * 4 + (p1 - q1) + 4) / 8);
        &&& w.len() == 8
        &&& w[0] is None && w[1] is None && w[6] is None && w[7] is None
        &&& w[3] == px(p0 + delta)
        &&& w[4] == px(q0 - delta)
        &&& w[2] == (if abs(p2 - p0) < beta && tc0 > 0 {
            px(p1 + clip3(-tc0, tc0, (p2 + (p0 + q0 + 1) / 2 - 2 * p1) / 2))
        } else {
            None
        })
        &&& w[5] == (if abs(q2 - q0) < beta && tc0 > 0 {
            px(q1 + clip3(-tc0, tc0, (q2 + (p0 + q0 + 1) / 2 - 2 * q1) / 2))
        } else {
            None
        })
    }),
{
    let (p2, p1, p0) = (v[1] as int, v[2] as int, v[3] as int);
    let (q0, q1, q2) = (v[4] as int, v[5] as int, v[6] as int);
    let (ap, aq) = (abs(p2 - p0) < beta, abs(q2 - q0) < beta);
    let tc = tc0 + (if ap { 1int } else { 0 }) + (if aq { 1int } else { 0 });
    let delta = edge_delta(p1, p0, q0, q1, tc);
    assert(luma_line_filter(v, alpha, beta, tc0, bs) == seq![None, None, weak_side(p2, p1, p0, q0, tc0, ap),
        px(p0 + delta), px(q0 - delta), weak_side(q2, q1, p0, q0, tc0, aq), None, None]) by {
        reveal(luma_line_filter);
    }
}

/// The strong (Bs 4) luma filter treats both sides of the edge alike: filtering the
/// line read in the other direction (`q3 .. q0 | p0 .. p3`) writes the same values
/// at the mirrored places.
pub proof fn lemma_luma_strong_mirror(v: Seq<u8>, alpha: int, beta: int)
    requires
        v.len() == 8,
    ensures
        luma_line_filter(v.reverse(), alpha, beta, 0, 4) == luma_line_filter(v, alpha, beta, 0, 4).reverse(),
{
    let u = v.reverse();
    assert(u.len() == 8 && u[0] == v[7] && u[1] == v[6] && u[2] == v[5] && u[3] == v[4]
        && u[4] == v[3] && u[5] == v[2] && u[6] == v[1] && u[7] == v[0]);
    let w = luma_line_filter(v, alpha, beta, 0, 4);
    let wu = luma_line_filter(u, alpha, beta, 0, 4);
    if edge_active(v[3] as int, v[2] as int, v[4] as int, v[5] as int, alpha, beta) {
        lemma_luma_strong_filter(v, alpha, beta);
        lemma_luma_strong_filter(u, alpha, beta);
    } else {
        lemma_luma_line_idle(v, alpha, beta, 0, 4);
        lemma_luma_line_idle(u, alpha, beta, 0, 4);
    }
    assert(wu.len() == 8 && w.len() == 8);
    assert(wu[0] == w[7] && wu[1] == w[6] && wu[2] == w[5] && wu[3] == w[4]);
    assert(wu[4] == w[3] && wu[5] == w[2] && wu[6] == w[1] && wu[7] == w[0]);
    assert(wu =~= w.reverse());
}

/// The chroma filter on a line `p1 p0 | q0 q1`: where the edge is active, `p0`
/// becomes `p0 + delta` and `q0` becomes `q0 - delta`, with `delta` the correction
/// `((q0 - p0) * 4 + (p1 - q1) + 4) >> 3` clipped to `[-tc0, tc0]`; `p1` and `q1` are
/// never written, and nothing is written where the edge is not active.
pub proof fn lemma_chroma_filter(v: Seq<u8>, alpha: int, beta: int, tc0: int)
    requires
        v.len() == 4,
    ensures ({
        let w = chroma_line_filter(v, alpha, beta, tc0);
        let (p1, p0, q0, q1) = (v[0] as int, v[1] as int, v[2] as int, v[3] as int);
        let delta = clip3(-tc0, tc0, ((q0 - p0) * 4 + (p1 - q1) + 4) / 8);
        &&& w.len() == 4
        &&& w[0] is None && w[3] is None
        &&& edge_active(p0, p1, q0, q1, alpha, beta) ==> w[1] == px(p0 + delta) && w[2] == px(q0 - delta)
        &&& !edge_active(p0, p1, q0, q1, alpha, beta) ==> w[1] is None && w[2] is None
    }),
{
    reveal(chroma_line_filter);
}

} // verus!
