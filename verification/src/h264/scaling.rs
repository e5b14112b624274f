//! Scaling lists: the quantization matrices of the High profiles, their default
//! values, their decoding from delta-coded zig-zag order, and their application.
use vstd::prelude::*;
use super::arith::clip3;

verus! {

/// The 4x4 zig-zag scan: entry `k` is the raster position of the `k`-th coefficient.
pub open spec fn zigzag_4x4_seq() -> Seq<usize> {
    seq![0usize, 1, 4, 8, 5, 2, 3, 6, 9, 12, 13, 10, 7, 11, 14, 15]
}

/// The 8x8 zig-zag scan.
pub open spec fn zigzag_8x8_seq() -> Seq<usize> {
    seq![0usize, 1, 8, 16, 9, 2, 3, 10, 17, 24, 32, 25, 18, 11, 4, 5,
        12, 19, 26, 33, 40, 48, 41, 34, 27, 20, 13, 6, 7, 14, 21, 28,
        35, 42, 49, 56, 57, 50, 43, 36, 29, 22, 15, 23, 30, 37, 44, 51,
        58, 59, 52, 45, 38, 31, 39, 46, 53, 60, 61, 54, 47, 55, 62, 63]
}

spec fn zigzag_4x4_inverse() -> Seq<int> {
    seq![0int, 1, 5, 6, 2, 4, 7, 12, 3, 8, 11, 13, 9, 10, 14, 15]
}

spec fn zigzag_8x8_inverse() -> Seq<int> {
    seq![0int, 1, 5, 6, 14, 15, 27, 28, 2, 4, 7, 13, 16, 26, 29, 42,
        3, 8, 12, 17, 25, 30, 41, 43, 9, 11, 18, 24, 31, 40, 44, 53,
        10, 19, 23, 32, 39, 45, 52, 54, 20, 22, 33, 38, 46, 51, 55, 60,
        21, 34, 37, 47, 50, 56, 59, 61, 35, 36, 48, 49, 57, 58, 62, 63]
}

/// The default 4x4 intra matrix, in raster order.
pub open spec fn default_4x4_intra_seq() -> Seq<u8> {
    seq![6u8, 13, 13, 20, 13, 20, 20, 20, 13, 20, 20, 20, 20, 20, 20, 20]
}

/// The default 4x4 inter matrix.
pub open spec fn default_4x4_inter_seq() -> Seq<u8> {
    seq![10u8, 14, 14, 20, 14, 20, 20, 20, 14, 20, 20, 20, 20, 20, 20, 20]
}

/// The default 8x8 intra matrix.
pub open spec fn default_8x8_intra_seq() -> Seq<u8> {
    seq![6u8, 10, 10, 13, 11, 13, 16, 16, 16, 16, 16, 16, 16, 16, 16, 16,
        10, 11, 13, 14, 16, 16, 16, 16, 16, 16, 16, 16, 16, 16, 16, 16,
        13, 14, 16, 16, 16, 16, 16, 16, 16, 16, 16, 16, 16, 16, 16, 16,
        16, 16, 16, 16, 16, 16, 16, 16, 16, 16, 16, 16, 16, 16, 16, 16]
}

/// The default 8x8 inter matrix.
pub open spec fn default_8x8_inter_seq() -> Seq<u8> {
    seq![9u8, 13, 13, 15, 13, 15, 15, 15, 15, 15, 15, 15, 15, 15, 15, 15,
        13, 13, 15, 15, 15, 15, 15, 15, 15, 15, 15, 15, 15, 15, 15, 15,
        15, 15, 15, 15, 15, 15, 15, 15, 15, 15, 15, 15, 15, 15, 15, 15,
        15, 15, 15, 15, 15, 15, 15, 15, 15, 15, 15, 15, 15, 15, 15, 15]
}

/// The 4x4 zig-zag scan order.
pub fn zigzag_4x4() -> (r: [usize; 16])
    ensures
        r@ == zigzag_4x4_seq(),
{
    let r: [usize; 16] = [0, 1, 4, 8, 5, 2, 3, 6, 9, 12, 13, 10, 7, 11, 14, 15];
    assert(r@ =~= zigzag_4x4_seq());
    r
}

/// The 8x8 zig-zag scan order.
pub fn zigzag_8x8() -> (r: [usize; 64])
    ensures
        r@ == zigzag_8x8_seq(),
{
    let r: [usize; 64] = [0, 1, 8, 16, 9, 2, 3, 10, 17, 24, 32, 25, 18, 11, 4, 5,
        12, 19, 26, 33, 40, 48, 41, 34, 27, 20, 13, 6, 7, 14, 21, 28,
        35, 42, 49, 56, 57, 50, 43, 36, 29, 22, 15, 23, 30, 37, 44, 51,
        58, 59, 52, 45, 38, 31, 39, 46, 53, 60, 61, 54, 47, 55, 62, 63];
    assert(r@ =~= zigzag_8x8_seq());
    r
}

/// The default 4x4 intra matrix.
pub fn default_4x4_intra() -> (r: [u8; 16])
    ensures
        r@ == default_4x4_intra_seq(),
{
    let r: [u8; 16] = [6, 13, 13, 20, 13, 20, 20, 20, 13, 20, 20, 20, 20, 20, 20, 20];
    assert(r@ =~= default_4x4_intra_seq());
    r
}

/// The default 4x4 inter matrix.
pub fn default_4x4_inter() -> (r: [u8; 16])
    ensures
        r@ == default_4x4_inter_seq(),
{
    let r: [u8; 16] = [10, 14, 14, 20, 14, 20, 20, 20, 14, 20, 20, 20, 20, 20, 20, 20];
    assert(r@ =~= default_4x4_inter_seq());
    r
}

/// The default 8x8 intra matrix.
pub fn default_8x8_intra() -> (r: [u8; 64])
    ensures
        r@ == default_8x8_intra_seq(),
{
    let r: [u8; 64] = [6, 10, 10, 13, 11, 13, 16, 16, 16, 16, 16, 16, 16, 16, 16, 16,
        10, 11, 13, 14, 16, 16, 16, 16, 16, 16, 16, 16, 16, 16, 16, 16,
        13, 14, 16, 16, 16, 16, 16, 16, 16, 16, 16, 16, 16, 16, 16, 16,
        16, 16, 16, 16, 16, 16, 16, 16, 16, 16, 16, 16, 16, 16, 16, 16];
    assert(r@ =~= default_8x8_intra_seq());
    r
}

/// The default 8x8 inter matrix.
pub fn default_8x8_inter() -> (r: [u8; 64])
    ensures
        r@ == default_8x8_inter_seq(),
{
    let r: [u8; 64] = [9, 13, 13, 15, 13, 15, 15, 15, 15, 15, 15, 15, 15, 15, 15, 15,
        13, 13, 15, 15, 15, 15, 15, 15, 15, 15, 15, 15, 15, 15, 15, 15,
        15, 15, 15, 15, 15, 15, 15, 15, 15, 15, 15, 15, 15, 15, 15, 15,
        15, 15, 15, 15, 15, 15, 15, 15, 15, 15, 15, 15, 15, 15, 15, 15];
    assert(r@ =~= default_8x8_inter_seq());
    r
}

proof fn lemma_zigzag_4x4_inverse()
    ensures
        forall|k: int| 0 <= k < 16 ==> #[trigger] zigzag_4x4_seq()[k] < 16
            && zigzag_4x4_inverse()[zigzag_4x4_seq()[k] as int] == k,
{
    assert forall|k: int| 0 <= k < 16 implies #[trigger] zigzag_4x4_seq()[k] < 16
        && zigzag_4x4_inverse()[zigzag_4x4_seq()[k] as int] == k by {
        if k == 0 {
            assert(zigzag_4x4_seq()[0] == 0 && zigzag_4x4_inverse()[0] == 0);
        } else if k == 1 {
            assert(zigzag_4x4_seq()[1] == 1 && zigzag_4x4_inverse()[1] == 1);
        } else if k == 2 {
            assert(zigzag_4x4_seq()[2] == 4 && zigzag_4x4_inverse()[4] == 2);
        } else if k == 3 {
            assert(zigzag_4x4_seq()[3] == 8 && zigzag_4x4_inverse()[8] == 3);
        } else if k == 4 {
            assert(zigzag_4x4_seq()[4] == 5 && zigzag_4x4_inverse()[5] == 4);
        } else if k == 5 {
            assert(zigzag_4x4_seq()[5] == 2 && zigzag_4x4_inverse()[2] == 5);
        } else if k == 6 {
            assert(zigzag_4x4_seq()[6] == 3 && zigzag_4x4_inverse()[3] == 6);
        } else if k == 7 {
            assert(zigzag_4x4_seq()[7] == 6 && zigzag_4x4_inverse()[6] == 7);
        } else if k == 8 {
            assert(zigzag_4x4_seq()[8] == 9 && zigzag_4x4_inverse()[9] == 8);
        } else if k == 9 {
            assert(zigzag_4x4_seq()[9] == 12 && zigzag_4x4_inverse()[12] == 9);
        } else if k == 10 {
            assert(zigzag_4x4_seq()[10] == 13 && zigzag_4x4_inverse()[13] == 10);
        } else if k == 11 {
            assert(zigzag_4x4_seq()[11] == 10 && zigzag_4x4_inverse()[10] == 11);
        } else if k == 12 {
            assert(zigzag_4x4_seq()[12] == 7 && zigzag_4x4_inverse()[7] == 12);
        } else if k == 13 {
            assert(zigzag_4x4_seq()[13] == 11 && zigzag_4x4_inverse()[11] == 13);
        } else if k == 14 {
            assert(zigzag_4x4_seq()[14] == 14 && zigzag_4x4_inverse()[14] == 14);
        } else if k == 15 {
            assert(zigzag_4x4_seq()[15] == 15 && zigzag_4x4_inverse()[15] == 15);
        }
    }
}

proof fn lemma_zigzag_8x8_inverse()
    ensures
        forall|k: int| 0 <= k < 64 ==> #[trigger] zigzag_8x8_seq()[k] < 64
            && zigzag_8x8_inverse()[zigzag_8x8_seq()[k] as int] == k,
{
    assert forall|k: int| 0 <= k < 64 implies #[trigger] zigzag_8x8_seq()[k] < 64
        && zigzag_8x8_inverse()[zigzag_8x8_seq()[k] as int] == k by {
        if k == 0 {
            assert(zigzag_8x8_seq()[0] == 0 && zigzag_8x8_inverse()[0] == 0);
        } else if k == 1 {
            assert(zigzag_8x8_seq()[1] == 1 && zigzag_8x8_inverse()[1] == 1);
        } else if k == 2 {
            assert(zigzag_8x8_seq()[2] == 8 && zigzag_8x8_inverse()[8] == 2);
        } else if k == 3 {
            assert(zigzag_8x8_seq()[3] == 16 && zigzag_8x8_inverse()[16] == 3);
        } else if k == 4 {
            assert(zigzag_8x8_seq()[4] == 9 && zigzag_8x8_inverse()[9] == 4);
        } else if k == 5 {
            assert(zigzag_8x8_seq()[5] == 2 && zigzag_8x8_inverse()[2] == 5);
        } else if k == 6 {
            assert(zigzag_8x8_seq()[6] == 3 && zigzag_8x8_inverse()[3] == 6);
        } else if k == 7 {
            assert(zigzag_8x8_seq()[7] == 10 && zigzag_8x8_inverse()[10] == 7);
        } else if k == 8 {
            assert(zigzag_8x8_seq()[8] == 17 && zigzag_8x8_inverse()[17] == 8);
        } else if k == 9 {
            assert(zigzag_8x8_seq()[9] == 24 && zigzag_8x8_inverse()[24] == 9);
        } else if k == 10 {
            assert(zigzag_8x8_seq()[10] == 32 && zigzag_8x8_inverse()[32] == 10);
        } else if k == 11 {
            assert(zigzag_8x8_seq()[11] == 25 && zigzag_8x8_inverse()[25] == 11);
        } else if k == 12 {
            assert(zigzag_8x8_seq()[12] == 18 && zigzag_8x8_inverse()[18] == 12);
        } else if k == 13 {
            assert(zigzag_8x8_seq()[13] == 11 && zigzag_8x8_inverse()[11] == 13);
        } else if k == 14 {
            assert(zigzag_8x8_seq()[14] == 4 && zigzag_8x8_inverse()[4] == 14);
        } else if k == 15 {
            assert(zigzag_8x8_seq()[15] == 5 && zigzag_8x8_inverse()[5] == 15);
        } else if k == 16 {
            assert(zigzag_8x8_seq()[16] == 12 && zigzag_8x8_inverse()[12] == 16);
        } else if k == 17 {
            assert(zigzag_8x8_seq()[17] == 19 && zigzag_8x8_inverse()[19] == 17);
        } else if k == 18 {
            assert(zigzag_8x8_seq()[18] == 26 && zigzag_8x8_inverse()[26] == 18);
        } else if k == 19 {
            assert(zigzag_8x8_seq()[19] == 33 && zigzag_8x8_inverse()[33] == 19);
        } else if k == 20 {
            assert(zigzag_8x8_seq()[20] == 40 && zigzag_8x8_inverse()[40] == 20);
        } else if k == 21 {
            assert(zigzag_8x8_seq()[21] == 48 && zigzag_8x8_inverse()[48] == 21);
        } else if k == 22 {
            assert(zigzag_8x8_seq()[22] == 41 && zigzag_8x8_inverse()[41] == 22);
        } else if k == 23 {
            assert(zigzag_8x8_seq()[23] == 34 && zigzag_8x8_inverse()[34] == 23);
        } else if k == 24 {
            assert(zigzag_8x8_seq()[24] == 27 && zigzag_8x8_inverse()[27] == 24);
        } else if k == 25 {
            assert(zigzag_8x8_seq()[25] == 20 && zigzag_8x8_inverse()[20] == 25);
        } else if k == 26 {
            assert(zigzag_8x8_seq()[26] == 13 && zigzag_8x8_inverse()[13] == 26);
        } else if k == 27 {
            assert(zigzag_8x8_seq()[27] == 6 && zigzag_8x8_inverse()[6] == 27);
        } else if k == 28 {
            assert(zigzag_8x8_seq()[28] == 7 && zigzag_8x8_inverse()[7] == 28);
        } else if k == 29 {
            assert(zigzag_8x8_seq()[29] == 14 && zigzag_8x8_inverse()[14] == 29);
        } else if k == 30 {
            assert(zigzag_8x8_seq()[30] == 21 && zigzag_8x8_inverse()[21] == 30);
        } else if k == 31 {
            assert(zigzag_8x8_seq()[31] == 28 && zigzag_8x8_inverse()[28] == 31);
        } else if k == 32 {
            assert(zigzag_8x8_seq()[32] == 35 && zigzag_8x8_inverse()[35] == 32);
        } else if k == 33 {
            assert(zigzag_8x8_seq()[33] == 42 && zigzag_8x8_inverse()[42] == 33);
        } else if k == 34 {
            assert(zigzag_8x8_seq()[34] == 49 && zigzag_8x8_inverse()[49] == 34);
        } else if k == 35 {
            assert(zigzag_8x8_seq()[35] == 56 && zigzag_8x8_inverse()[56] == 35);
        } else if k == 36 {
            assert(zigzag_8x8_seq()[36] == 57 && zigzag_8x8_inverse()[57] == 36);
        } else if k == 37 {
            assert(zigzag_8x8_seq()[37] == 50 && zigzag_8x8_inverse()[50] == 37);
        } else if k == 38 {
            assert(zigzag_8x8_seq()[38] == 43 && zigzag_8x8_inverse()[43] == 38);
        } else if k == 39 {
            assert(zigzag_8x8_seq()[39] == 36 && zigzag_8x8_inverse()[36] == 39);
        } else if k == 40 {
            assert(zigzag_8x8_seq()[40] == 29 && zigzag_8x8_inverse()[29] == 40);
        } else if k == 41 {
            assert(zigzag_8x8_seq()[41] == 22 && zigzag_8x8_inverse()[22] == 41);
        } else if k == 42 {
            assert(zigzag_8x8_seq()[42] == 15 && zigzag_8x8_inverse()[15] == 42);
        } else if k == 43 {
            assert(zigzag_8x8_seq()[43] == 23 && zigzag_8x8_inverse()[23] == 43);
        } else if k == 44 {
            assert(zigzag_8x8_seq()[44] == 30 && zigzag_8x8_inverse()[30] == 44);
        } else if k == 45 {
            assert(zigzag_8x8_seq()[45] == 37 && zigzag_8x8_inverse()[37] == 45);
        } else if k == 46 {
            assert(zigzag_8x8_seq()[46] == 44 && zigzag_8x8_inverse()[44] == 46);
        } else if k == 47 {
            assert(zigzag_8x8_seq()[47] == 51 && zigzag_8x8_inverse()[51] == 47);
        } else if k == 48 {
            assert(zigzag_8x8_seq()[48] == 58 && zigzag_8x8_inverse()[58] == 48);
        } else if k == 49 {
            assert(zigzag_8x8_seq()[49] == 59 && zigzag_8x8_inverse()[59] == 49);
        } else if k == 50 {
            assert(zigzag_8x8_seq()[50] == 52 && zigzag_8x8_inverse()[52] == 50);
        } else if k == 51 {
            assert(zigzag_8x8_seq()[51] == 45 && zigzag_8x8_inverse()[45] == 51);
        } else if k == 52 {
            assert(zigzag_8x8_seq()[52] == 38 && zigzag_8x8_inverse()[38] == 52);
        } else if k == 53 {
            assert(zigzag_8x8_seq()[53] == 31 && zigzag_8x8_inverse()[31] == 53);
        } else if k == 54 {
            assert(zigzag_8x8_seq()[54] == 39 && zigzag_8x8_inverse()[39] == 54);
        } else if k == 55 {
            assert(zigzag_8x8_seq()[55] == 46 && zigzag_8x8_inverse()[46] == 55);
        } else if k == 56 {
            assert(zigzag_8x8_seq()[56] == 53 && zigzag_8x8_inverse()[53] == 56);
        } else if k == 57 {
            assert(zigzag_8x8_seq()[57] == 60 && zigzag_8x8_inverse()[60] == 57);
        } else if k == 58 {
            assert(zigzag_8x8_seq()[58] == 61 && zigzag_8x8_inverse()[61] == 58);
        } else if k == 59 {
            assert(zigzag_8x8_seq()[59] == 54 && zigzag_8x8_inverse()[54] == 59);
        } else if k == 60 {
            assert(zigzag_8x8_seq()[60] == 47 && zigzag_8x8_inverse()[47] == 60);
        } else if k == 61 {
            assert(zigzag_8x8_seq()[61] == 55 && zigzag_8x8_inverse()[55] == 61);
        } else if k == 62 {
            assert(zigzag_8x8_seq()[62] == 62 && zigzag_8x8_inverse()[62] == 62);
        } else if k == 63 {
            assert(zigzag_8x8_seq()[63] == 63 && zigzag_8x8_inverse()[63] == 63);
        }
    }
}

/// Each zig-zag scan visits every position of its block exactly once.
pub proof fn lemma_zigzag_is_permutation()
    ensures
        forall|k: int| 0 <= k < 16 ==> #[trigger] zigzag_4x4_seq()[k] < 16,
        forall|a: int, b: int| 0 <= a < b < 16 ==> #[trigger] zigzag_4x4_seq()[a] != #[trigger] zigzag_4x4_seq()[b],
        forall|k: int| 0 <= k < 64 ==> #[trigger] zigzag_8x8_seq()[k] < 64,
        forall|a: int, b: int| 0 <= a < b < 64 ==> #[trigger] zigzag_8x8_seq()[a] != #[trigger] zigzag_8x8_seq()[b],
{
    lemma_zigzag_4x4_inverse();
    lemma_zigzag_8x8_inverse();
}

/// The running scale after the first `n` coefficients of a delta-coded list: it
/// starts at 8, each delta is added and the sum clipped to `[0, 255]`; past the
/// deltas the scale stays.
pub open spec fn scale_after(d: Seq<i32>, n: nat) -> int
    decreases n,
{
    if n == 0 {
        8
    } else {
        let prev = scale_after(d, (n - 1) as nat);
        if n - 1 < d.len() { clip3(0, 255, prev + d[n - 1]) } else { prev }
    }
}

/// No sum of a running scale and the next delta leaves `i32`.
pub open spec fn deltas_fit(d: Seq<i32>, count: nat) -> bool {
    forall|k: nat| k < count && k < d.len() ==> #[trigger] scale_after(d, k) + d[k as int] <= i32::MAX
}

proof fn lemma_scale_after_range(d: Seq<i32>, n: nat)
    ensures
        0 <= scale_after(d, n) <= 255,
    decreases n,
{
    if n > 0 {
        lemma_scale_after_range(d, (n - 1) as nat);
    }
}

/// The quantization matrices of a sequence or picture.
#[derive(Debug, Clone)]
pub struct ScalingLists {
    pub scaling_list_4x4: [[u8; 16]; 6],
    pub scaling_list_8x8: [[u8; 64]; 6],
    pub present: bool,
}

/// The lists hold the default matrices: intra for the first three 4x4 lists and
/// inter for the rest; intra and inter alternate among the 8x8 lists.
pub open spec fn is_default_lists(s: ScalingLists) -> bool {
    &&& forall|k: int| 0 <= k < 3 ==> (#[trigger] s.scaling_list_4x4@[k])@ == default_4x4_intra_seq()
    &&& forall|k: int| 3 <= k < 6 ==> (#[trigger] s.scaling_list_4x4@[k])@ == default_4x4_inter_seq()
    &&& forall|k: int| 0 <= k < 6 && k % 2 == 0 ==> (#[trigger] s.scaling_list_8x8@[k])@ == default_8x8_intra_seq()
    &&& forall|k: int| 0 <= k < 6 && k % 2 == 1 ==> (#[trigger] s.scaling_list_8x8@[k])@ == default_8x8_inter_seq()
    &&& !s.present
}

impl Default for ScalingLists {
    fn default() -> (s: ScalingLists)
        ensures
            is_default_lists(s),
    {
        let i4 = default_4x4_intra();
        let p4 = default_4x4_inter();
        let i8 = default_8x8_intra();
        let p8 = default_8x8_inter();
        let s = ScalingLists {
            scaling_list_4x4: [i4, i4, i4, p4, p4, p4],
            scaling_list_8x8: [i8, p8, i8, p8, i8, p8],
            present: false,
        };
        assert(s.scaling_list_4x4@[0] == i4 && s.scaling_list_4x4@[1] == i4 && s.scaling_list_4x4@[2] == i4);
        assert(s.scaling_list_4x4@[3] == p4 && s.scaling_list_4x4@[4] == p4 && s.scaling_list_4x4@[5] == p4);
        assert(s.scaling_list_8x8@[0] == i8 && s.scaling_list_8x8@[2] == i8 && s.scaling_list_8x8@[4] == i8);
        assert(s.scaling_list_8x8@[1] == p8 && s.scaling_list_8x8@[3] == p8 && s.scaling_list_8x8@[5] == p8);
        s
    }
}

impl ScalingLists {
    /// Lists holding the default matrices.
    pub fn new() -> (s: ScalingLists)
        ensures
            is_default_lists(s),
    {
        ScalingLists::default()
    }

    /// Decode a 4x4 list from deltas in zig-zag order, or give the default intra
    /// matrix. The `k`-th zig-zag position holds the running scale after `k + 1`
    /// deltas.
    pub fn decode_4x4(deltas: &[i32], use_default: bool) -> (m: [u8; 16])
        requires
            use_default || deltas_fit(deltas@, 16),
        ensures
            use_default ==> m@ == default_4x4_intra_seq(),
            !use_default ==> forall|k: int| 0 <= k < 16 ==>
                #[trigger] m@[zigzag_4x4_seq()[k] as int] == scale_after(deltas@, (k + 1) as nat),
    {
        if use_default {
            return default_4x4_intra();
        }
        let zz = zigzag_4x4();
        let mut matrix = [0u8; 16];
        let mut last_scale: i32 = 8;
        let mut i: usize = 0;
        proof {
            lemma_zigzag_is_permutation();
        }
        while i < 16
            invariant
                0 <= i <= 16,
                zz@ == zigzag_4x4_seq(),
                deltas_fit(deltas@, 16),
                last_scale == scale_after(deltas@, i as nat),
                forall|k: int| 0 <= k < 16 ==> #[trigger] zigzag_4x4_seq()[k] < 16,
                forall|a: int, b: int| 0 <= a < b < 16 ==> #[trigger] zigzag_4x4_seq()[a] != #[trigger] zigzag_4x4_seq()[b],
                forall|k: int| 0 <= k < i ==>
                    #[trigger] matrix@[zigzag_4x4_seq()[k] as int] == scale_after(deltas@, (k + 1) as nat),
            decreases 16 - i,
        {
            proof {
                lemma_scale_after_range(deltas@, i as nat);
            }
            if i < deltas.len() {
                assert(scale_after(deltas@, i as nat) + deltas@[i as int] <= i32::MAX);
                let s = last_scale + deltas[i];
                last_scale = if s < 0 { 0 } else if s > 255 { 255 } else { s };
            }
            let idx = zz[i];
            matrix[idx] = last_scale as u8;
            i = i + 1;
        }
        matrix
    }

    /// Decode an 8x8 list from deltas in zig-zag order, or give the default intra
    /// matrix.
    pub fn decode_8x8(deltas: &[i32], use_default: bool) -> (m: [u8; 64])
        requires
            use_default || deltas_fit(deltas@, 64),
        ensures
            use_default ==> m@ == default_8x8_intra_seq(),
            !use_default ==> forall|k: int| 0 <= k < 64 ==>
                #[trigger] m@[zigzag_8x8_seq()[k] as int] == scale_after(deltas@, (k + 1) as nat),
    {
        if use_default {
            return default_8x8_intra();
        }
        let zz = zigzag_8x8();
        let mut matrix = [0u8; 64];
        let mut last_scale: i32 = 8;
        let mut i: usize = 0;
        proof {
            lemma_zigzag_is_permutation();
        }
        while i < 64
            invariant
                0 <= i <= 64,
                zz@ == zigzag_8x8_seq(),
                deltas_fit(deltas@, 64),
                last_scale == scale_after(deltas@, i as nat),
                forall|k: int| 0 <= k < 64 ==> #[trigger] zigzag_8x8_seq()[k] < 64,
                forall|a: int, b: int| 0 <= a < b < 64 ==> #[trigger] zigzag_8x8_seq()[a] != #[trigger] zigzag_8x8_seq()[b],
                forall|k: int| 0 <= k < i ==>
                    #[trigger] matrix@[zigzag_8x8_seq()[k] as int] == scale_after(deltas@, (k + 1) as nat),
            decreases 64 - i,
        {
            proof {
                lemma_scale_after_range(deltas@, i as nat);
            }
            if i < deltas.len() {
                assert(scale_after(deltas@, i as nat) + deltas@[i as int] <= i32::MAX);
                let s = last_scale + deltas[i];
                last_scale = if s < 0 { 0 } else if s > 255 { 255 } else { s };
            }
            let idx = zz[i];
            matrix[idx] = last_scale as u8;
            i = i + 1;
        }
        matrix
    }

    /// The scale at `(i, j)` of 4x4 list `list_idx`; 16 (flat) outside the lists.
    pub fn get_4x4(&self, list_idx: usize, i: usize, j: usize) -> (r: u8)
        ensures
            r == (if list_idx >= 6 || i >= 4 || j >= 4 { 16u8 }
                else { self.scaling_list_4x4@[list_idx as int]@[i * 4 + j] }),
    {
        if list_idx >= 6 || i >= 4 || j >= 4 {
            return 16;
        }
        self.scaling_list_4x4[list_idx][i * 4 + j]
    }

    /// The scale at `(i, j)` of 8x8 list `list_idx`; 16 (flat) outside the lists.
    pub fn get_8x8(&self, list_idx: usize, i: usize, j: usize) -> (r: u8)
        ensures
            r == (if list_idx >= 6 || i >= 8 || j >= 8 { 16u8 }
                else { self.scaling_list_8x8@[list_idx as int]@[i * 8 + j] }),
    {
        if list_idx >= 6 || i >= 8 || j >= 8 {
            return 16;
        }
        self.scaling_list_8x8[list_idx][i * 8 + j]
    }

    /// Replace 4x4 list `list_idx` and mark the lists present; an index past the
    /// lists changes nothing.
    pub fn set_4x4(&mut self, list_idx: usize, matrix: [u8; 16])
        ensures
            list_idx < 6 ==> final(self).scaling_list_4x4@ == old(self).scaling_list_4x4@.update(list_idx as int, matrix)
                && final(self).scaling_list_8x8 == old(self).scaling_list_8x8 && final(self).present,
            list_idx >= 6 ==> *final(self) == *old(self),
    {
        if list_idx < 6 {
            self.scaling_list_4x4[list_idx] = matrix;
            self.present = true;
        }
    }

    /// Replace 8x8 list `list_idx` and mark the lists present; an index past the
    /// lists changes nothing.
    pub fn set_8x8(&mut self, list_idx: usize, matrix: [u8; 64])
        ensures
            list_idx < 6 ==> final(self).scaling_list_8x8@ == old(self).scaling_list_8x8@.update(list_idx as int, matrix)
                && final(self).scaling_list_4x4 == old(self).scaling_list_4x4 && final(self).present,
            list_idx >= 6 ==> *final(self) == *old(self),
    {
        if list_idx < 6 {
            self.scaling_list_8x8[list_idx] = matrix;
            self.present = true;
        }
    }
}

/// A scaled coefficient: `(c * s) >> 4`, truncated to `i16`.
pub open spec fn scaled_coeff(c: i16, s: u8) -> i16 {
    ((c as int * s as int) / 16) as i16
}

fn scale_one(c: i16, s: u8) -> (r: i16)
    ensures
        r == scaled_coeff(c, s),
{
    assert(-32768 * 255 <= c * s <= 32767 * 255) by (nonlinear_arith)
        requires -32768 <= c <= 32767, 0 <= s <= 255;
    let p: i32 = (c as i32) * (s as i32);
    let q: i32 = p >> 4u32;
    assert(q == p / 16) by (bit_vector)
        requires q == p >> 4u32;
    #[verifier::truncate]
    (q as i16)
}

/// Scale each of 16 coefficients by its matrix entry: `(c * s) >> 4`, truncated to
/// `i16`.
pub fn apply_scaling_4x4(coeffs: &mut [i16; 16], scaling: &[u8; 16], qp: i32)
    ensures
        forall|k: int| 0 <= k < 16 ==> #[trigger] final(coeffs)@[k] == scaled_coeff(old(coeffs)@[k], scaling@[k]),
{
    let mut i: usize = 0;
    while i < 16
        invariant
            0 <= i <= 16,
            forall|k: int| 0 <= k < i ==> #[trigger] coeffs@[k] == scaled_coeff(old(coeffs)@[k], scaling@[k]),
            forall|k: int| i <= k < 16 ==> #[trigger] coeffs@[k] == old(coeffs)@[k],
        decreases 16 - i,
    {
        let v = scale_one(coeffs[i], scaling[i]);
        coeffs[i] = v;
        i = i + 1;
    }
}

/// Scale each of 64 coefficients by its matrix entry.
pub fn apply_scaling_8x8(coeffs: &mut [i16; 64], scaling: &[u8; 64], qp: i32)
    ensures
        forall|k: int| 0 <= k < 64 ==> #[trigger] final(coeffs)@[k] == scaled_coeff(old(coeffs)@[k], scaling@[k]),
{
    let mut i: usize = 0;
    while i < 64
        invariant
            0 <= i <= 64,
            forall|k: int| 0 <= k < i ==> #[trigger] coeffs@[k] == scaled_coeff(old(coeffs)@[k], scaling@[k]),
            forall|k: int| i <= k < 64 ==> #[trigger] coeffs@[k] == old(coeffs)@[k],
        decreases 64 - i,
    {
        let v = scale_one(coeffs[i], scaling[i]);
        coeffs[i] = v;
        i = i + 1;
    }
}

} // verus!
