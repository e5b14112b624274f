//! Direct prediction in B slices: motion inferred from the co-located block
//! (temporal) or from the neighbouring blocks (spatial).
use vstd::prelude::*;
use crate::error::Result;

verus! {

/// How direct-mode motion is derived.
#[derive(Debug, Clone, Copy, PartialEq, Eq, Structural)]
pub enum DirectMode {
    Temporal,
    Spatial,
}

/// Which lists a direct block predicts from.
#[derive(Debug, Clone, Copy, PartialEq, Eq, Structural)]
pub enum DirectPredMode {
    L0,
    L1,
    Bi,
}

impl Default for DirectPredMode {
    fn default() -> (m: DirectPredMode)
        ensures
            m == DirectPredMode::Bi,
    {
        DirectPredMode::Bi
    }
}

/// The motion of a direct block.
#[derive(Debug, Clone, Copy)]
pub struct DirectMv {
    pub mv_l0: (i16, i16),
    pub mv_l1: (i16, i16),
    pub ref_idx_l0: i8,
    pub ref_idx_l1: i8,
    pub pred_mode: DirectPredMode,
}

impl Default for DirectMv {
    fn default() -> (d: DirectMv)
        ensures
            d == (DirectMv { mv_l0: (0, 0), mv_l1: (0, 0), ref_idx_l0: 0, ref_idx_l1: 0, pred_mode: DirectPredMode::Bi }),
    {
        DirectMv { mv_l0: (0, 0), mv_l1: (0, 0), ref_idx_l0: 0, ref_idx_l1: 0, pred_mode: DirectPredMode::Bi }
    }
}

/// The co-located block of the first list-1 reference.
#[derive(Debug, Clone, Copy)]
pub struct ColocatedMb {
    pub mv: (i16, i16),
    pub ref_idx: i8,
    pub is_intra: bool,
    pub poc: i32,
}

impl Default for ColocatedMb {
    fn default() -> (c: ColocatedMb)
        ensures
            c == (ColocatedMb { mv: (0, 0), ref_idx: 0, is_intra: false, poc: 0 }),
    {
        ColocatedMb { mv: (0, 0), ref_idx: 0, is_intra: false, poc: 0 }
    }
}

/// `max(x, 1)`.
pub open spec fn at_least_one(x: int) -> int {
    if x < 1 { 1 } else { x }
}

/// The temporal scale factor for a distance `td >= 1`: `(16384 + td / 2) / td`.
pub open spec fn direct_scale(td: int) -> int {
    (16384 + td / 2) / td
}

/// A scaled co-located component: `((tx * c * tb + 8192) >> 14)` truncated to `i16`.
pub open spec fn scaled_component(tx: int, c: int, tb: int) -> i16 {
    ((tx * c * tb + 8192) / 16384) as i16
}

/// The scaled components fit in `i32` and their complements in `i16`.
pub open spec fn temporal_fits(mv: (i16, i16), td: int, tb: int) -> bool {
    let tx = direct_scale(td);
    &&& i32::MIN <= tx * mv.0 * tb <= i32::MAX && tx * mv.0 * tb + 8192 <= i32::MAX
    &&& i32::MIN <= tx * mv.1 * tb <= i32::MAX && tx * mv.1 * tb + 8192 <= i32::MAX
    &&& i16::MIN <= mv.0 - scaled_component(tx, mv.0 as int, tb) <= i16::MAX
    &&& i16::MIN <= mv.1 - scaled_component(tx, mv.1 as int, tb) <= i16::MAX
}

/// The temporal-direct motion derived from a co-located vector with distances
/// `td` and `tb`: list 0 gets the scaled vector, list 1 the rest of it.
pub open spec fn temporal_mv(mv: (i16, i16), td: int, tb: int) -> DirectMv {
    let tx = direct_scale(td);
    let l0 = (scaled_component(tx, mv.0 as int, tb), scaled_component(tx, mv.1 as int, tb));
    DirectMv {
        mv_l0: l0,
        mv_l1: ((mv.0 - l0.0) as i16, (mv.1 - l0.1) as i16),
        ref_idx_l0: 0,
        ref_idx_l1: 0,
        pred_mode: DirectPredMode::Bi,
    }
}

/// The inputs of the temporal derivation of a co-located block keep every
/// intermediate value in range.
pub open spec fn temporal_direct_ok(c: ColocatedMb, current_poc: i32, list0_poc: i32) -> bool {
    c.is_intra || c.ref_idx < 0 || {
        &&& i32::MIN <= c.poc - current_poc <= i32::MAX
        &&& i32::MIN <= current_poc - list0_poc <= i32::MAX
        &&& temporal_fits(c.mv, at_least_one(c.poc - current_poc), at_least_one(current_poc - list0_poc))
    }
}

fn scale_factor(td: i32) -> (tx: i32)
    requires
        td >= 1,
    ensures
        tx == direct_scale(td as int),
        0 <= tx <= 16384,
{
    let tx = (16384 + td / 2) / td;
    assert(0 <= tx <= 16384) by (nonlinear_arith)
        requires tx as int == (16384 + (td as int) / 2) / (td as int), td >= 1;
    tx
}

fn scale_component(tx: i32, c: i16, tb: i32) -> (r: i16)
    requires
        0 <= tx <= 16384,
        i32::MIN <= tx * c * tb <= i32::MAX,
        tx * c * tb + 8192 <= i32::MAX,
    ensures
        r == scaled_component(tx as int, c as int, tb as int),
{
    assert(-0x2000_0000 <= tx * c <= 0x2000_0000) by (nonlinear_arith)
        requires 0 <= tx <= 16384, -32768 <= c <= 32767;
    let v = super::arith::asr(tx * (c as i32) * tb + 8192, 14);
    proof {
        vstd::arithmetic::power2::lemma2_to64();
    }
    #[verifier::truncate]
    (v as i16)
}

/// Temporal direct motion for a macroblock: zero motion where the co-located block
/// is intra or has no reference; otherwise its vector scaled by the POC distances
/// (each at least 1).
pub fn derive_temporal_direct_mv(colocated: &ColocatedMb, current_poc: i32, list0_poc: i32, list1_poc: i32) -> (r: Result<DirectMv>)
    requires
        temporal_direct_ok(*colocated, current_poc, list0_poc),
    ensures
        r matches Ok(d) && d == (if colocated.is_intra || colocated.ref_idx < 0 {
            DirectMv { mv_l0: (0, 0), mv_l1: (0, 0), ref_idx_l0: 0, ref_idx_l1: 0, pred_mode: DirectPredMode::Bi }
        } else {
            temporal_mv(colocated.mv, at_least_one(colocated.poc - current_poc), at_least_one(current_poc - list0_poc))
        }),
{
    if colocated.is_intra || colocated.ref_idx < 0 {
        return Ok(DirectMv { mv_l0: (0, 0), mv_l1: (0, 0), ref_idx_l0: 0, ref_idx_l1: 0, pred_mode: DirectPredMode::Bi });
    }
    let d = colocated.poc - current_poc;
    let td = if d < 1 { 1 } else { d };
    let b = current_poc - list0_poc;
    let tb = if b < 1 { 1 } else { b };
    let tx = scale_factor(td);
    let x0 = scale_component(tx, colocated.mv.0, tb);
    let y0 = scale_component(tx, colocated.mv.1, tb);
    Ok(DirectMv {
        mv_l0: (x0, y0),
        mv_l1: (colocated.mv.0 - x0, colocated.mv.1 - y0),
        ref_idx_l0: 0,
        ref_idx_l1: 0,
        pred_mode: DirectPredMode::Bi,
    })
}

/// The median of three values.
pub open spec fn median3(a: int, b: int, c: int) -> int {
    let lo = if a <= b { a } else { b };
    let hi = if a <= b { b } else { a };
    if c <= lo { lo } else if c >= hi { hi } else { c }
}

/// A neighbour's vector, or zero for a missing neighbour.
pub open spec fn or_zero(mv: Option<(i16, i16)>) -> (i16, i16) {
    match mv {
        Some(v) => v,
        None => (0, 0),
    }
}

fn median_i16(a: i16, b: i16, c: i16) -> (r: i16)
    ensures
        r == median3(a as int, b as int, c as int),
{
    let lo = if a <= b { a } else { b };
    let hi = if a <= b { b } else { a };
    if c <= lo { lo } else if c >= hi { hi } else { c }
}

/// The component-wise median of three neighbouring vectors; missing neighbours
/// count as zero.
pub fn median_motion_vector(mv_a: Option<(i16, i16)>, mv_b: Option<(i16, i16)>, mv_c: Option<(i16, i16)>) -> (r: (i16, i16))
    ensures
        r.0 == median3(or_zero(mv_a).0 as int, or_zero(mv_b).0 as int, or_zero(mv_c).0 as int),
        r.1 == median3(or_zero(mv_a).1 as int, or_zero(mv_b).1 as int, or_zero(mv_c).1 as int),
{
    let a = match mv_a { Some(v) => v, None => (0, 0) };
    let b = match mv_b { Some(v) => v, None => (0, 0) };
    let c = match mv_c { Some(v) => v, None => (0, 0) };
    (median_i16(a.0, b.0, c.0), median_i16(a.1, b.1, c.1))
}

/// Spatial direct motion: the median neighbour vector on list 0, zero on list 1.
pub fn derive_spatial_direct_mv(mv_a: Option<(i16, i16)>, mv_b: Option<(i16, i16)>, mv_c: Option<(i16, i16)>) -> (r: Result<DirectMv>)
    ensures
        r matches Ok(d) && d.mv_l1 == (0i16, 0i16) && d.ref_idx_l0 == 0 && d.ref_idx_l1 == 0
            && d.pred_mode == DirectPredMode::L0
            && d.mv_l0.0 == median3(or_zero(mv_a).0 as int, or_zero(mv_b).0 as int, or_zero(mv_c).0 as int)
            && d.mv_l0.1 == median3(or_zero(mv_a).1 as int, or_zero(mv_b).1 as int, or_zero(mv_c).1 as int),
{
    let mv_pred = median_motion_vector(mv_a, mv_b, mv_c);
    Ok(DirectMv { mv_l0: mv_pred, mv_l1: (0, 0), ref_idx_l0: 0, ref_idx_l1: 0, pred_mode: DirectPredMode::L0 })
}

/// Per-4x4 direct motion of a macroblock.
#[derive(Debug, Clone)]
pub struct Direct4x4 {
    pub mvs_l0: [(i16, i16); 16],
    pub mvs_l1: [(i16, i16); 16],
    pub ref_idx_l0: [i8; 4],
    pub ref_idx_l1: [i8; 4],
}

impl Default for Direct4x4 {
    fn default() -> (d: Direct4x4)
        ensures
            forall|k: int| 0 <= k < 16 ==> #[trigger] d.mvs_l0@[k] == (0i16, 0i16) && d.mvs_l1@[k] == (0i16, 0i16),
            forall|k: int| 0 <= k < 4 ==> #[trigger] d.ref_idx_l0@[k] == 0 && d.ref_idx_l1@[k] == 0,
    {
        Direct4x4 { mvs_l0: [(0, 0); 16], mvs_l1: [(0, 0); 16], ref_idx_l0: [0; 4], ref_idx_l1: [0; 4] }
    }
}

/// The first `n` blocks of `d` hold the temporal-direct motion of the co-located
/// vectors `col`.
pub open spec fn temporal_4x4_prefix(d: Direct4x4, col: Seq<(i16, i16)>, td: int, tb: int, n: int) -> bool {
    forall|k: int| 0 <= k < n ==> #[trigger] d.mvs_l0@[k] == temporal_mv(col[k], td, tb).mv_l0
        && d.mvs_l1@[k] == temporal_mv(col[k], td, tb).mv_l1
}

/// Every reference index of `d` is 0.
pub open spec fn zero_ref_indices(d: Direct4x4) -> bool {
    forall|k: int| 0 <= k < 4 ==> #[trigger] d.ref_idx_l0@[k] == 0 && d.ref_idx_l1@[k] == 0
}

/// Temporal direct motion for each 4x4 block, with distances from the list-1 and
/// list-0 POCs (each at least 1).
pub fn derive_temporal_direct_4x4(colocated_4x4: &[(i16, i16); 16], current_poc: i32, list0_poc: i32, list1_poc: i32) -> (r: Result<Direct4x4>)
    requires
        i32::MIN <= list1_poc - current_poc <= i32::MAX,
        i32::MIN <= current_poc - list0_poc <= i32::MAX,
        forall|k: int| 0 <= k < 16 ==> temporal_fits(#[trigger] colocated_4x4@[k],
            at_least_one(list1_poc - current_poc), at_least_one(current_poc - list0_poc)),
    ensures
        r matches Ok(d) && temporal_4x4_prefix(d, colocated_4x4@, at_least_one(list1_poc - current_poc),
            at_least_one(current_poc - list0_poc), 16) && zero_ref_indices(d),
{
    let mut result = Direct4x4::default();
    let d = list1_poc - current_poc;
    let td = if d < 1 { 1 } else { d };
    let b = current_poc - list0_poc;
    let tb = if b < 1 { 1 } else { b };
    let tx = scale_factor(td);
    let mut i: usize = 0;
    while i < 16
        invariant
            0 <= i <= 16,
            td == at_least_one(list1_poc - current_poc),
            tb == at_least_one(current_poc - list0_poc),
            tx == direct_scale(td as int),
            0 <= tx <= 16384,
            forall|k: int| 0 <= k < 16 ==> temporal_fits(#[trigger] colocated_4x4@[k], td as int, tb as int),
            temporal_4x4_prefix(result, colocated_4x4@, td as int, tb as int, i as int),
            zero_ref_indices(result),
        decreases 16 - i,
    {
        let mv_col = colocated_4x4[i];
        assert(temporal_fits(colocated_4x4@[i as int], td as int, tb as int));
        let x0 = scale_component(tx, mv_col.0, tb);
        let y0 = scale_component(tx, mv_col.1, tb);
        result.mvs_l0[i] = (x0, y0);
        result.mvs_l1[i] = (mv_col.0 - x0, mv_col.1 - y0);
        i = i + 1;
    }
    Ok(result)
}

/// Spatial derivation when the PPS flag is set, temporal otherwise.
pub fn get_direct_mode(direct_spatial_mv_pred_flag: bool) -> (m: DirectMode)
    ensures
        m == (if direct_spatial_mv_pred_flag { DirectMode::Spatial } else { DirectMode::Temporal }),
{
    if direct_spatial_mv_pred_flag { DirectMode::Spatial } else { DirectMode::Temporal }
}

/// Direct motion of a macroblock by the given mode.
pub fn derive_direct_mb(mode: DirectMode, colocated: &ColocatedMb, mv_neighbors: (Option<(i16, i16)>, Option<(i16, i16)>, Option<(i16, i16)>),
    current_poc: i32, list0_poc: i32, list1_poc: i32) -> (r: Result<DirectMv>)
    requires
        mode == DirectMode::Temporal ==> temporal_direct_ok(*colocated, current_poc, list0_poc),
    ensures
        mode == DirectMode::Temporal ==> (r matches Ok(d) && d == (if colocated.is_intra || colocated.ref_idx < 0 {
            DirectMv { mv_l0: (0, 0), mv_l1: (0, 0), ref_idx_l0: 0, ref_idx_l1: 0, pred_mode: DirectPredMode::Bi }
        } else {
            temporal_mv(colocated.mv, at_least_one(colocated.poc - current_poc), at_least_one(current_poc - list0_poc))
        })),
        mode == DirectMode::Spatial ==> (r matches Ok(d) && d.mv_l1 == (0i16, 0i16) && d.pred_mode == DirectPredMode::L0
            && d.ref_idx_l0 == 0 && d.ref_idx_l1 == 0
            && d.mv_l0.0 == median3(or_zero(mv_neighbors.0).0 as int, or_zero(mv_neighbors.1).0 as int, or_zero(mv_neighbors.2).0 as int)
            && d.mv_l0.1 == median3(or_zero(mv_neighbors.0).1 as int, or_zero(mv_neighbors.1).1 as int, or_zero(mv_neighbors.2).1 as int)),
{
    match mode {
        DirectMode::Temporal => derive_temporal_direct_mv(colocated, current_poc, list0_poc, list1_poc),
        DirectMode::Spatial => derive_spatial_direct_mv(mv_neighbors.0, mv_neighbors.1, mv_neighbors.2),
    }
}

/// The median of three values lies between their minimum and maximum, and is one
/// of them.
pub proof fn lemma_median3_bounds(a: int, b: int, c: int)
    ensures
        median3(a, b, c) == a || median3(a, b, c) == b || median3(a, b, c) == c,
        median3(a, b, c) >= a || median3(a, b, c) >= b,
        median3(a, b, c) <= a || median3(a, b, c) <= b,
        median3(a, b, c) == median3(b, a, c),
        median3(a, b, c) == median3(a, c, b),
{
}

} // verus!
