//! Macroblock layer: macroblock types of I, P and B slices, intra macroblocks read
//! with CAVLC, P macroblocks, and the CABAC syntax elements of a macroblock.
use vstd::prelude::*;
use crate::error::{Error, Result};
use super::arith::clip_pixel;
use super::cavlc::{cavlc_block, decode_residual_block_cavlc};
use super::nal::{BitReader, rd_bits, rd_ue, rd_se, bits_value, lemma_rd_bounds};
use super::motion::{parse_mvd, predict_motion_vector, qpel_int, block_in_source, block_written};
use super::predict::{predict_intra_16x16, predict_intra_4x4, predict_inter, intra4x4_prediction,
    intra16x16_sample, Intra16x16Mode, Intra4x4Mode};
use super::reconstruct::{block_index, gather_block, scatter_block, lemma_block_bounds, lemma_block_index, lemma_blocks_cover};
use super::motion::interp_sample;
use super::transform::{add_residual, hadamard_4x4, idct_4x4, idct4, hadamard4};
use super::cabac::{CabacContext, CabacDecoder, ctx_ok, decision, bypass, terminate, lemma_updated_ok};
use vstd::arithmetic::power2::{pow2, lemma2_to64, lemma_pow2_unfold};

verus! {

/// Macroblock type of an I slice.
#[derive(Debug, Clone, Copy, PartialEq, Eq, Structural)]
pub enum IMbType {
    I4x4,
    I16x16 { pred_mode: Intra16x16Mode, coded_block_pattern: u32, qp_delta: i32 },
    IPcm,
}

/// The 16x16 prediction mode of I_16x16 type `v` (1 to 24).
pub open spec fn i16x16_mode(v: int) -> Intra16x16Mode {
    let m = (v - 1) % 4;
    if m == 0 { Intra16x16Mode::Vertical } else if m == 1 { Intra16x16Mode::Horizontal }
    else if m == 2 { Intra16x16Mode::Dc } else { Intra16x16Mode::Plane }
}

/// The coded block pattern of I_16x16 type `v` (1 to 24).
pub open spec fn i16x16_cbp(v: int) -> u32 {
    let c = (v - 1) / 4;
    if c == 0 { 0 } else if c == 1 { 0x0F } else if c == 2 { 0x10 } else if c == 3 { 0x1F }
    else if c == 4 { 0x20 } else if c == 5 { 0x2F } else { 0x3F }
}

/// The I macroblock type with value `v`: 0 is I_4x4, 1 to 24 are I_16x16 and 25
/// is I_PCM.
pub open spec fn spec_i_mb_type(v: int) -> Option<IMbType> {
    if v == 0 {
        Some(IMbType::I4x4)
    } else if 1 <= v <= 24 {
        Some(IMbType::I16x16 { pred_mode: i16x16_mode(v), coded_block_pattern: i16x16_cbp(v), qp_delta: 0 })
    } else if v == 25 {
        Some(IMbType::IPcm)
    } else {
        None
    }
}

/// The I_16x16 type for a value from 1 to 24.
fn i16x16_type(v: u32) -> (t: IMbType)
    requires
        1 <= v <= 24,
    ensures
        spec_i_mb_type(v as int) == Some(t),
{
    let mode_idx = (v - 1) % 4;
    let cbp_idx = (v - 1) / 4;
    let pred_mode = if mode_idx == 0 {
        Intra16x16Mode::Vertical
    } else if mode_idx == 1 {
        Intra16x16Mode::Horizontal
    } else if mode_idx == 2 {
        Intra16x16Mode::Dc
    } else {
        Intra16x16Mode::Plane
    };
    let coded_block_pattern: u32 = match cbp_idx {
        0 => 0,
        1 => 0x0F,
        2 => 0x10,
        3 => 0x1F,
        4 => 0x20,
        5 => 0x2F,
        _ => 0x3F,
    };
    IMbType::I16x16 { pred_mode, coded_block_pattern, qp_delta: 0 }
}

/// Read the `mb_type` of an I slice.
pub fn decode_mb_type_i(br: &mut BitReader) -> (r: Result<IMbType>)
    requires
        old(br).wf(),
    ensures
        final(br).wf(),
        final(br).bytes() == old(br).bytes(),
        match rd_ue(old(br).bytes(), old(br).pos()) {
            Some((v, q)) => match spec_i_mb_type(v as int) {
                Some(t) => r == Ok::<IMbType, Error>(t) && final(br).pos() == q,
                None => r is Err,
            },
            None => r is Err,
        },
{
    proof { br.lemma_pos(); }
    let mb_type = br.read_ue()?;
    if mb_type == 0 {
        Ok(IMbType::I4x4)
    } else if mb_type >= 1 && mb_type <= 24 {
        Ok(i16x16_type(mb_type))
    } else if mb_type == 25 {
        Ok(IMbType::IPcm)
    } else {
        Err(Error::invalid("H.264", "Invalid I-slice MB type"))
    }
}

/// Decoded samples of a macroblock: 16x16 luma and two 8x8 chroma blocks.
pub struct MacroblockData {
    pub luma: Vec<u8>,
    pub chroma_u: Vec<u8>,
    pub chroma_v: Vec<u8>,
}

/// `n` mid-gray samples.
pub open spec fn gray(n: nat) -> Seq<u8> {
    Seq::new(n, |i: int| 128u8)
}

/// The first sixteen coefficients of a decoded block, zero where it is shorter.
pub open spec fn first16(c: Seq<i16>) -> Seq<i16> {
    Seq::new(16, |i: int| if i < c.len() { c[i] } else { 0i16 })
}

/// A 4x4 block with DC coefficient `dc` and AC coefficients from `ac`.
pub open spec fn with_dc(dc: i16, ac: Seq<i16>) -> Seq<i16> {
    Seq::new(16, |i: int| if i == 0 { dc } else if i - 1 < ac.len() { ac[i - 1] } else { 0i16 })
}

/// The intra 4x4 prediction mode index 0..8 to mode; others give DC.
pub open spec fn intra4x4_mode_of(v: int) -> Intra4x4Mode {
    if v == 0 { Intra4x4Mode::Vertical } else if v == 1 { Intra4x4Mode::Horizontal }
    else if v == 2 { Intra4x4Mode::Dc } else if v == 3 { Intra4x4Mode::DiagonalDownLeft }
    else if v == 4 { Intra4x4Mode::DiagonalDownRight } else if v == 5 { Intra4x4Mode::VerticalRight }
    else if v == 6 { Intra4x4Mode::HorizontalDown } else if v == 7 { Intra4x4Mode::VerticalLeft }
    else if v == 8 { Intra4x4Mode::HorizontalUp } else { Intra4x4Mode::Dc }
}

/// The prediction mode of a 4x4 block at bit `p`: a set flag selects DC, else three
/// bits give the mode index.
pub open spec fn pred_mode_at(s: Seq<u8>, p: int) -> Option<(Intra4x4Mode, int)> {
    match rd_bits(s, p, 1) {
        None => None,
        Some((f, q)) => if f == 1 {
            Some((Intra4x4Mode::Dc, q))
        } else {
            match rd_bits(s, q, 3) {
                None => None,
                Some((v, q2)) => Some((intra4x4_mode_of(v as int), q2)),
            }
        },
    }
}

fn decode_intra4x4_pred_mode(br: &mut BitReader) -> (r: Result<Intra4x4Mode>)
    requires
        old(br).wf(),
    ensures
        final(br).wf(),
        final(br).bytes() == old(br).bytes(),
        match pred_mode_at(old(br).bytes(), old(br).pos()) {
            Some((m, q)) => r == Ok::<Intra4x4Mode, Error>(m) && final(br).pos() == q,
            None => r is Err,
        },
{
    proof { br.lemma_pos(); }
    let flag = br.read_bit()?;
    let mode_idx: u32 = if flag == 1 {
        2
    } else {
        proof { br.lemma_pos(); }
        br.read_bits(3)?
    };
    proof {
        if flag == 1 {
            assert(bits_value(old(br).bytes(), old(br).pos(), 1) == 1) by {
                reveal_with_fuel(bits_value, 2);
            }
        } else {
            assert(bits_value(old(br).bytes(), old(br).pos(), 1) == flag) by {
                reveal_with_fuel(bits_value, 2);
            }
        }
    }
    let mode = match mode_idx {
        0 => Intra4x4Mode::Vertical,
        1 => Intra4x4Mode::Horizontal,
        2 => Intra4x4Mode::Dc,
        3 => Intra4x4Mode::DiagonalDownLeft,
        4 => Intra4x4Mode::DiagonalDownRight,
        5 => Intra4x4Mode::VerticalRight,
        6 => Intra4x4Mode::HorizontalDown,
        7 => Intra4x4Mode::VerticalLeft,
        8 => Intra4x4Mode::HorizontalUp,
        _ => Intra4x4Mode::Dc,
    };
    Ok(mode)
}

/// The prediction modes and coefficient blocks of the first `n` 4x4 blocks of an
/// I_4x4 macroblock at bit `p`, each a mode then a 16-coefficient CAVLC block, and
/// the position after them.
pub open spec fn i4x4_parse(s: Seq<u8>, p: int, n: nat) -> Option<(Seq<Intra4x4Mode>, Seq<Seq<i16>>, int)>
    decreases n,
{
    if n == 0 {
        Some((Seq::empty(), Seq::empty(), p))
    } else {
        match i4x4_parse(s, p, (n - 1) as nat) {
            None => None,
            Some((ms, cs, q)) => match pred_mode_at(s, q) {
                None => None,
                Some((m, q1)) => match cavlc_block(s, q1, 16) {
                    None => None,
                    Some((c, q2)) => Some((ms.push(m), cs.push(c), q2)),
                },
            },
        }
    }
}

/// Once the blocks fail to parse, more blocks fail too.
proof fn lemma_i4x4_none(s: Seq<u8>, p: int, n: nat, m: nat)
    requires
        n <= m,
        i4x4_parse(s, p, n) is None,
    ensures
        i4x4_parse(s, p, m) is None,
    decreases m - n,
{
    if n < m {
        lemma_i4x4_none(s, p, n, (m - 1) as nat);
    }
}

/// A parse of `n` blocks holds `n` modes and `n` coefficient blocks.
proof fn lemma_i4x4_len(s: Seq<u8>, p: int, n: nat)
    ensures
        i4x4_parse(s, p, n) matches Some((ms, cs, q)) ==> ms.len() == n && cs.len() == n,
    decreases n,
{
    if n > 0 {
        lemma_i4x4_len(s, p, (n - 1) as nat);
    }
}

/// Sample `(x, y)` of 4x4 block `b` of an I_4x4 macroblock: the prediction from
/// mid-gray neighbours in the block's mode plus the inverse transform of its
/// coefficients, clipped.
pub open spec fn i4x4_sample(ms: Seq<Intra4x4Mode>, cs: Seq<Seq<i16>>, b: int, x: int, y: int) -> u8 {
    clip_pixel(intra4x4_prediction(ms[b], gray(13))[y * 4 + x] + idct4(first16(cs[b]))[y * 4 + x]) as u8
}

/// Copy the first sixteen coefficients of a decoded block into an array.
fn to_block16(c: &Vec<i16>) -> (a: [i16; 16])
    ensures
        a@ == first16(c@),
{
    let mut a = [0i16; 16];
    let n = if c.len() < 16 { c.len() } else { 16 };
    let mut i: usize = 0;
    while i < n
        invariant
            i <= n,
            n == (if c@.len() < 16 { c@.len() } else { 16 }),
            forall|k: int| 0 <= k < i ==> #[trigger] a@[k] == c@[k],
            forall|k: int| i <= k < 16 ==> #[trigger] a@[k] == 0,
        decreases n - i,
    {
        a[i] = c[i];
        i += 1;
    }
    assert(a@ =~= first16(c@));
    a
}

/// Decode an I_4x4 macroblock: per 4x4 block a prediction mode and a residual
/// block; chroma is mid-gray.
fn decode_i4x4_macroblock(br: &mut BitReader, neighbors_available: bool) -> (r: Result<MacroblockData>)
    requires
        old(br).wf(),
    ensures
        final(br).wf(),
        final(br).bytes() == old(br).bytes(),
        match i4x4_parse(old(br).bytes(), old(br).pos(), 16) {
            Some((ms, cs, q)) => r matches Ok(d) && final(br).pos() == q && i4x4_mb(d, ms, cs),
            None => r is Err,
        },
{
    let ghost s = br.bytes();
    let ghost p0 = br.pos();
    let mut luma: Vec<u8> = vec![128u8; 256];
    let ghost mut ms: Seq<Intra4x4Mode> = Seq::empty();
    let ghost mut cs: Seq<Seq<i16>> = Seq::empty();
    let mut block_idx: usize = 0;
    while block_idx < 16
        invariant
            br.wf(),
            br.bytes() == s,
            s == old(br).bytes(),
            p0 == old(br).pos(),
            block_idx <= 16,
            luma@.len() == 256,
            i4x4_parse(s, p0, block_idx as nat) == Some((ms, cs, br.pos())),
            ms.len() == block_idx,
            cs.len() == block_idx,
            forall|b: int, y: int, x: int| 0 <= b < block_idx && 0 <= y < 4 && 0 <= x < 4 ==>
                luma@[#[trigger] block_index(b, 4, 4, 16, x, y)] == i4x4_sample(ms, cs, b, x, y),
        decreases 16 - block_idx,
    {
        proof { br.lemma_pos(); }
        let pred_mode = match decode_intra4x4_pred_mode(br) {
            Ok(m) => m,
            Err(e) => {
                proof { lemma_i4x4_none(s, p0, (block_idx + 1) as nat, 16); }
                return Err(e);
            },
        };
        let neighbors = if neighbors_available { vec![128u8; 13] } else { vec![128u8; 13] };
        assert(neighbors@ =~= gray(13));
        let mut predicted: Vec<u8> = vec![0u8; 16];
        predict_intra_4x4(pred_mode, neighbors.as_slice(), predicted.as_mut_slice())?;
        let coeffs_vec = match decode_residual_block_cavlc(br, 16) {
            Ok(v) => v,
            Err(e) => {
                proof { lemma_i4x4_none(s, p0, (block_idx + 1) as nat, 16); }
                return Err(e);
            },
        };
        let coeffs = to_block16(&coeffs_vec);
        let mut residual = [0i16; 16];
        idct_4x4(&coeffs, &mut residual);
        let ghost pred = predicted@;
        add_residual(predicted.as_mut_slice(), &residual)?;
        let ghost before = luma@;
        scatter_block(luma.as_mut_slice(), block_idx, 4, 4, 16, predicted.as_slice());
        proof {
            let ghost c = coeffs_vec@;
            ms = ms.push(pred_mode);
            cs = cs.push(c);
            assert forall|b: int, y: int, x: int| 0 <= b < block_idx + 1 && 0 <= y < 4 && 0 <= x < 4 implies
                luma@[#[trigger] block_index(b, 4, 4, 16, x, y)] == i4x4_sample(ms, cs, b, x, y) by {
                if b == block_idx {
                    lemma_block_bounds(b, 4, 4, 16, 256, x, y);
                    assert(predicted@[y * 4 + x] == clip_pixel(pred[y * 4 + x] + residual@[y * 4 + x]) as u8);
                } else {
                    assert(luma@[block_index(b, 4, 4, 16, x, y)] == before[block_index(b, 4, 4, 16, x, y)]);
                }
            }
        }
        block_idx += 1;
    }
    let chroma_u = vec![128u8; 64];
    let chroma_v = vec![128u8; 64];
    assert(chroma_u@ =~= gray(64));
    assert(chroma_v@ =~= gray(64));
    Ok(MacroblockData { luma, chroma_u, chroma_v })
}

/// An I_4x4 macroblock decoded from the given modes and coefficient blocks.
pub open spec fn i4x4_mb(d: MacroblockData, ms: Seq<Intra4x4Mode>, cs: Seq<Seq<i16>>) -> bool {
    &&& d.luma@.len() == 256
    &&& forall|b: int, y: int, x: int| 0 <= b < 16 && 0 <= y < 4 && 0 <= x < 4 ==>
        d.luma@[#[trigger] block_index(b, 4, 4, 16, x, y)] == i4x4_sample(ms, cs, b, x, y)
    &&& d.chroma_u@ == gray(64)
    &&& d.chroma_v@ == gray(64)
}

/// `n` AC blocks of 15 coefficients each, read with CAVLC from bit `p`.
pub open spec fn ac_parse(s: Seq<u8>, p: int, n: nat) -> Option<(Seq<Seq<i16>>, int)>
    decreases n,
{
    if n == 0 {
        Some((Seq::empty(), p))
    } else {
        match ac_parse(s, p, (n - 1) as nat) {
            None => None,
            Some((cs, q)) => match cavlc_block(s, q, 15) {
                None => None,
                Some((c, q2)) => Some((cs.push(c), q2)),
            },
        }
    }
}

proof fn lemma_ac_none(s: Seq<u8>, p: int, n: nat, m: nat)
    requires
        n <= m,
        ac_parse(s, p, n) is None,
    ensures
        ac_parse(s, p, m) is None,
    decreases m - n,
{
    if n < m {
        lemma_ac_none(s, p, n, (m - 1) as nat);
    }
}

/// The residual of an I_16x16 macroblock at bit `p`: nothing when the luma part of
/// the coded block pattern is zero, else a DC block of 16 coefficients and sixteen
/// AC blocks.
pub open spec fn i16x16_parse(s: Seq<u8>, p: int, cbp: u32) -> Option<(Seq<i16>, Seq<Seq<i16>>, int)> {
    if cbp & 0x0F == 0 {
        Some((Seq::empty(), Seq::empty(), p))
    } else {
        match cavlc_block(s, p, 16) {
            None => None,
            Some((dc, q)) => match ac_parse(s, q, 16) {
                None => None,
                Some((acs, q2)) => Some((dc, acs, q2)),
            },
        }
    }
}

/// Sample `(x, y)` of 4x4 block `b` of an I_16x16 macroblock: the 16x16 prediction
/// from mid-gray neighbours, plus, when luma is coded, the inverse transform of the
/// block's AC coefficients with its DC taken from the Hadamard transform of the DC
/// block, clipped.
pub open spec fn i16x16_sample(mode: Intra16x16Mode, cbp: u32, dc: Seq<i16>, acs: Seq<Seq<i16>>, b: int, x: int, y: int) -> u8 {
    let pred = intra16x16_sample(mode, gray(33), (b % 4) * 4 + x, (b / 4) * 4 + y);
    if cbp & 0x0F == 0 {
        pred as u8
    } else {
        clip_pixel(pred + idct4(with_dc(hadamard4(first16(dc))[b], acs[b]))[y * 4 + x]) as u8
    }
}

/// An I_16x16 macroblock decoded from the given residual.
pub open spec fn i16x16_mb(d: MacroblockData, mode: Intra16x16Mode, cbp: u32, dc: Seq<i16>, acs: Seq<Seq<i16>>) -> bool {
    &&& d.luma@.len() == 256
    &&& forall|b: int, y: int, x: int| 0 <= b < 16 && 0 <= y < 4 && 0 <= x < 4 ==>
        d.luma@[#[trigger] block_index(b, 4, 4, 16, x, y)] == i16x16_sample(mode, cbp, dc, acs, b, x, y)
    &&& d.chroma_u@ == gray(64)
    &&& d.chroma_v@ == gray(64)
}

/// The block with DC `dc` and the first fifteen AC coefficients of `ac`.
fn ac_block16(dc: i16, ac: &Vec<i16>) -> (a: [i16; 16])
    ensures
        a@ == with_dc(dc, ac@),
{
    let mut a = [0i16; 16];
    a[0] = dc;
    let n = if ac.len() < 15 { ac.len() } else { 15 };
    let mut i: usize = 0;
    while i < n
        invariant
            i <= n,
            n == (if ac@.len() < 15 { ac@.len() } else { 15 }),
            a@[0] == dc,
            forall|k: int| 1 <= k < i + 1 ==> #[trigger] a@[k] == ac@[k - 1],
            forall|k: int| i + 1 <= k < 16 ==> #[trigger] a@[k] == 0,
        decreases n - i,
    {
        a[i + 1] = ac[i];
        i += 1;
    }
    assert(a@ =~= with_dc(dc, ac@));
    a
}

/// A coded I_16x16 luma block built over the prediction holds the samples of the
/// macroblock.
proof fn lemma_i16x16_coded(luma: Seq<u8>, pred: Seq<u8>, mode: Intra16x16Mode, cbp: u32, dc: Seq<i16>,
    acs: Seq<Seq<i16>>, h: Seq<i16>)
    requires
        cbp & 0x0F != 0,
        h == hadamard4(first16(dc)),
        pred.len() == 256,
        forall|y: int, x: int| 0 <= y < 16 && 0 <= x < 16 ==>
            pred[y * 16 + x] as int == #[trigger] intra16x16_sample(mode, gray(33), x, y),
        forall|b: int, y: int, x: int| 0 <= b < 16 && 0 <= y < 4 && 0 <= x < 4 ==>
            luma[#[trigger] block_index(b, 4, 4, 16, x, y)] == clip_pixel(pred[block_index(b, 4, 4, 16, x, y)]
                + idct4(with_dc(h[b], acs[b]))[y * 4 + x]) as u8,
    ensures
        forall|b: int, y: int, x: int| 0 <= b < 16 && 0 <= y < 4 && 0 <= x < 4 ==>
            luma[#[trigger] block_index(b, 4, 4, 16, x, y)] == i16x16_sample(mode, cbp, dc, acs, b, x, y),
{
    assert forall|b: int, y: int, x: int| 0 <= b < 16 && 0 <= y < 4 && 0 <= x < 4 implies
        luma[#[trigger] block_index(b, 4, 4, 16, x, y)] == i16x16_sample(mode, cbp, dc, acs, b, x, y) by {
        lemma_block_bounds(b, 4, 4, 16, 256, x, y);
        let xx = (b % 4) * 4 + x;
        let yy = (b / 4) * 4 + y;
        assert(block_index(b, 4, 4, 16, x, y) == yy * 16 + xx);
        assert(pred[yy * 16 + xx] as int == intra16x16_sample(mode, gray(33), xx, yy));
    }
}

/// Add the inverse transform of `coeffs` to 4x4 block `block_idx` of a 16x16
/// plane, clipped; the other blocks keep their samples.
fn add_block_residual(luma: &mut Vec<u8>, block_idx: usize, coeffs: &[i16; 16])
    requires
        old(luma)@.len() == 256,
        block_idx < 16,
    ensures
        final(luma)@.len() == 256,
        forall|y: int, x: int| 0 <= y < 4 && 0 <= x < 4 ==>
            final(luma)@[#[trigger] block_index(block_idx as int, 4, 4, 16, x, y)]
                == clip_pixel(old(luma)@[block_index(block_idx as int, 4, 4, 16, x, y)] + idct4(coeffs@)[y * 4 + x]) as u8,
        forall|b: int, y: int, x: int| 0 <= b < 16 && b != block_idx && 0 <= y < 4 && 0 <= x < 4 ==>
            final(luma)@[#[trigger] block_index(b, 4, 4, 16, x, y)] == old(luma)@[block_index(b, 4, 4, 16, x, y)],
{
    let mut residual = [0i16; 16];
    idct_4x4(coeffs, &mut residual);
    let mut block_pred: Vec<u8> = vec![0u8; 16];
    gather_block(luma.as_slice(), block_idx, 4, 4, 16, block_pred.as_mut_slice());
    let ghost bp = block_pred@;
    add_residual(block_pred.as_mut_slice(), &residual);
    scatter_block(luma.as_mut_slice(), block_idx, 4, 4, 16, block_pred.as_slice());
    proof {
        assert forall|y: int, x: int| 0 <= y < 4 && 0 <= x < 4 implies
            luma@[#[trigger] block_index(block_idx as int, 4, 4, 16, x, y)]
                == clip_pixel(old(luma)@[block_index(block_idx as int, 4, 4, 16, x, y)] + idct4(coeffs@)[y * 4 + x]) as u8 by {
            lemma_block_bounds(block_idx as int, 4, 4, 16, 256, x, y);
            assert(bp[y * 4 + x] == old(luma)@[block_index(block_idx as int, 4, 4, 16, x, y)]);
        }
    }
}

/// Decode an I_16x16 macroblock: the 16x16 prediction, and when luma is coded, a
/// DC block through the Hadamard transform and sixteen AC blocks; chroma is
/// mid-gray.
fn decode_i16x16_macroblock(br: &mut BitReader, pred_mode: Intra16x16Mode, coded_block_pattern: u32,
    neighbors_available: bool) -> (r: Result<MacroblockData>)
    requires
        old(br).wf(),
    ensures
        final(br).wf(),
        final(br).bytes() == old(br).bytes(),
        match i16x16_parse(old(br).bytes(), old(br).pos(), coded_block_pattern) {
            Some((dc, acs, q)) => r matches Ok(d) && final(br).pos() == q
                && i16x16_mb(d, pred_mode, coded_block_pattern, dc, acs),
            None => r is Err,
        },
{
    let ghost s = br.bytes();
    let ghost p0 = br.pos();
    let neighbors = if neighbors_available { vec![128u8; 33] } else { vec![128u8; 33] };
    assert(neighbors@ =~= gray(33));
    let mut luma: Vec<u8> = vec![0u8; 256];
    predict_intra_16x16(pred_mode, neighbors.as_slice(), luma.as_mut_slice())?;
    let ghost pred = luma@;
    let ghost mut dc: Seq<i16> = Seq::empty();
    let ghost mut acs: Seq<Seq<i16>> = Seq::empty();
    if coded_block_pattern & 0x0F != 0 {
        proof { br.lemma_pos(); }
        let dc_vec = decode_residual_block_cavlc(br, 16)?;
        proof { dc = dc_vec@; }
        let ghost q0 = br.pos();
        let dc_coeffs = to_block16(&dc_vec);
        let mut dc_output = [0i16; 16];
        hadamard_4x4(&dc_coeffs, &mut dc_output);
        let mut block_idx: usize = 0;
        while block_idx < 16
            invariant
                br.wf(),
                br.bytes() == s,
                s == old(br).bytes(),
                block_idx <= 16,
                luma@.len() == 256,
                pred.len() == 256,
                ac_parse(s, q0, block_idx as nat) == Some((acs, br.pos())),
                acs.len() == block_idx,
                p0 == old(br).pos(),
                coded_block_pattern & 0x0F != 0,
                cavlc_block(s, p0, 16) == Some((dc, q0)),
                forall|b: int, y: int, x: int| 0 <= b < 16 && 0 <= y < 4 && 0 <= x < 4 ==>
                    luma@[#[trigger] block_index(b, 4, 4, 16, x, y)] == (if b < block_idx {
                        clip_pixel(pred[block_index(b, 4, 4, 16, x, y)]
                            + idct4(with_dc(dc_output@[b], acs[b]))[y * 4 + x]) as u8
                    } else {
                        pred[block_index(b, 4, 4, 16, x, y)]
                    }),
            decreases 16 - block_idx,
        {
            proof { br.lemma_pos(); }
            let ac = match decode_residual_block_cavlc(br, 15) {
                Ok(v) => v,
                Err(e) => {
                    proof { lemma_ac_none(s, q0, (block_idx + 1) as nat, 16); }
                    return Err(e);
                },
            };
            let coeffs = ac_block16(dc_output[block_idx], &ac);
            let ghost before = luma@;
            add_block_residual(&mut luma, block_idx, &coeffs);
            proof {
                acs = acs.push(ac@);
                assert forall|b: int, y: int, x: int| 0 <= b < 16 && 0 <= y < 4 && 0 <= x < 4 implies
                    luma@[#[trigger] block_index(b, 4, 4, 16, x, y)] == (if b < block_idx + 1 {
                        clip_pixel(pred[block_index(b, 4, 4, 16, x, y)]
                            + idct4(with_dc(dc_output@[b], acs[b]))[y * 4 + x]) as u8
                    } else {
                        pred[block_index(b, 4, 4, 16, x, y)]
                    }) by {
                    if b != block_idx {
                        assert(luma@[block_index(b, 4, 4, 16, x, y)] == before[block_index(b, 4, 4, 16, x, y)]);
                    }
                }
            }
            block_idx += 1;
        }
        proof {
            lemma_i16x16_coded(luma@, pred, pred_mode, coded_block_pattern, dc, acs, dc_output@);
        }
    } else {
        proof {
            assert forall|b: int, y: int, x: int| 0 <= b < 16 && 0 <= y < 4 && 0 <= x < 4 implies
                luma@[#[trigger] block_index(b, 4, 4, 16, x, y)] == i16x16_sample(pred_mode, coded_block_pattern, dc, acs, b, x, y) by {
                lemma_block_bounds(b, 4, 4, 16, 256, x, y);
                let xx = (b % 4) * 4 + x;
                let yy = (b / 4) * 4 + y;
                assert(block_index(b, 4, 4, 16, x, y) == yy * 16 + xx);
                assert(luma@[yy * 16 + xx] as int == intra16x16_sample(pred_mode, gray(33), xx, yy));
            }
        }
    }
    let chroma_u = vec![128u8; 64];
    let chroma_v = vec![128u8; 64];
    assert(chroma_u@ =~= gray(64));
    assert(chroma_v@ =~= gray(64));
    Ok(MacroblockData { luma, chroma_u, chroma_v })
}

/// The next byte boundary at or after bit `p`.
pub open spec fn aligned(p: int) -> int {
    if p % 8 == 0 { p } else { p - p % 8 + 8 }
}

/// The raw samples of an I_PCM macroblock from byte-aligned bit `p0`: 256 luma
/// bytes, then 64 pairs of chroma bytes, U before V.
pub open spec fn ipcm_mb(d: MacroblockData, s: Seq<u8>, p0: int) -> bool {
    &&& d.luma@.len() == 256
    &&& d.chroma_u@.len() == 64
    &&& d.chroma_v@.len() == 64
    &&& forall|i: int| 0 <= i < 256 ==> #[trigger] d.luma@[i] == bits_value(s, p0 + 8 * i, 8) as u8
    &&& forall|i: int| 0 <= i < 64 ==> #[trigger] d.chroma_u@[i] == bits_value(s, p0 + 2048 + 16 * i, 8) as u8
    &&& forall|i: int| 0 <= i < 64 ==> #[trigger] d.chroma_v@[i] == bits_value(s, p0 + 2048 + 16 * i + 8, 8) as u8
}

/// Read one byte's worth of bits.
fn read_sample(br: &mut BitReader) -> (r: Result<u8>)
    requires
        old(br).wf(),
    ensures
        final(br).wf(),
        final(br).bytes() == old(br).bytes(),
        old(br).pos() + 8 <= old(br).bytes().len() * 8 ==>
            r == Ok::<u8, Error>(bits_value(old(br).bytes(), old(br).pos(), 8) as u8) && final(br).pos() == old(br).pos() + 8,
        old(br).pos() + 8 > old(br).bytes().len() * 8 ==> r is Err,
{
    let v = br.read_bits(8)?;
    Ok(v as u8)
}

/// Decode an I_PCM macroblock: raw samples from the next byte boundary.
fn decode_ipcm_macroblock(br: &mut BitReader) -> (r: Result<MacroblockData>)
    requires
        old(br).wf(),
    ensures
        final(br).wf(),
        final(br).bytes() == old(br).bytes(),
        aligned(old(br).pos()) + 3072 <= old(br).bytes().len() * 8 ==>
            (r matches Ok(d) && ipcm_mb(d, old(br).bytes(), aligned(old(br).pos()))
            && final(br).pos() == aligned(old(br).pos()) + 3072),
        aligned(old(br).pos()) + 3072 > old(br).bytes().len() * 8 ==> r is Err,
{
    let ghost s = br.bytes();
    br.byte_align();
    let ghost p0 = br.pos();
    assert(p0 == aligned(old(br).pos()));
    let mut luma: Vec<u8> = vec![0u8; 256];
    let mut i: usize = 0;
    while i < 256
        invariant
            br.wf(),
            br.bytes() == s,
            s == old(br).bytes(),
            p0 == aligned(old(br).pos()),
            i <= 256,
            br.pos() == p0 + 8 * i,
            luma@.len() == 256,
            forall|k: int| 0 <= k < i ==> #[trigger] luma@[k] == bits_value(s, p0 + 8 * k, 8) as u8,
        decreases 256 - i,
    {
        luma[i] = read_sample(br)?;
        i += 1;
    }
    let mut chroma_u: Vec<u8> = vec![0u8; 64];
    let mut chroma_v: Vec<u8> = vec![0u8; 64];
    let mut i: usize = 0;
    while i < 64
        invariant
            br.wf(),
            br.bytes() == s,
            s == old(br).bytes(),
            p0 == aligned(old(br).pos()),
            i <= 64,
            br.pos() == p0 + 2048 + 16 * i,
            luma@.len() == 256,
            chroma_u@.len() == 64,
            chroma_v@.len() == 64,
            forall|k: int| 0 <= k < 256 ==> #[trigger] luma@[k] == bits_value(s, p0 + 8 * k, 8) as u8,
            forall|k: int| 0 <= k < i ==> #[trigger] chroma_u@[k] == bits_value(s, p0 + 2048 + 16 * k, 8) as u8,
            forall|k: int| 0 <= k < i ==> #[trigger] chroma_v@[k] == bits_value(s, p0 + 2048 + 16 * k + 8, 8) as u8,
        decreases 64 - i,
    {
        chroma_u[i] = read_sample(br)?;
        chroma_v[i] = read_sample(br)?;
        i += 1;
    }
    proof { br.lemma_pos(); }
    Ok(MacroblockData { luma, chroma_u, chroma_v })
}

/// An I macroblock of type `t` decoded from bit `p`, ending at bit `q`.
pub open spec fn i_mb_ok(s: Seq<u8>, p: int, t: IMbType, d: MacroblockData, q: int) -> bool {
    match t {
        IMbType::I4x4 => i4x4_parse(s, p, 16) matches Some((ms, cs, q2)) && q == q2 && i4x4_mb(d, ms, cs),
        IMbType::I16x16 { pred_mode, coded_block_pattern, qp_delta } =>
            i16x16_parse(s, p, coded_block_pattern) matches Some((dc, acs, q2)) && q == q2
            && i16x16_mb(d, pred_mode, coded_block_pattern, dc, acs),
        IMbType::IPcm => aligned(p) + 3072 <= s.len() * 8 && q == aligned(p) + 3072 && ipcm_mb(d, s, aligned(p)),
    }
}

/// An I macroblock of type `t` at bit `p` cannot be read: its syntax runs past the
/// data or holds an invalid code.
pub open spec fn i_mb_fails(s: Seq<u8>, p: int, t: IMbType) -> bool {
    match t {
        IMbType::I4x4 => i4x4_parse(s, p, 16) is None,
        IMbType::I16x16 { pred_mode, coded_block_pattern, qp_delta } => i16x16_parse(s, p, coded_block_pattern) is None,
        IMbType::IPcm => aligned(p) + 3072 > s.len() * 8,
    }
}

/// The 4x4 block of a 16x16 raster index and the sample's place in it.
pub open spec fn block_of(i: int) -> (int, int, int) {
    ((i / 16 / 4) * 4 + (i % 16) / 4, (i % 16) % 4, (i / 16) % 4)
}

/// The luma samples of an I_4x4 macroblock in raster order.
pub open spec fn luma_i4x4(ms: Seq<Intra4x4Mode>, cs: Seq<Seq<i16>>) -> Seq<u8> {
    Seq::new(256, |i: int| i4x4_sample(ms, cs, block_of(i).0, block_of(i).1, block_of(i).2))
}

/// The luma samples of an I_16x16 macroblock in raster order.
pub open spec fn luma_i16x16(mode: Intra16x16Mode, cbp: u32, dc: Seq<i16>, acs: Seq<Seq<i16>>) -> Seq<u8> {
    Seq::new(256, |i: int| i16x16_sample(mode, cbp, dc, acs, block_of(i).0, block_of(i).1, block_of(i).2))
}

/// `n` raw bytes from bit `p0`, `step` bits apart.
pub open spec fn raw_bytes(s: Seq<u8>, p0: int, n: nat, step: int) -> Seq<u8> {
    Seq::new(n, |i: int| bits_value(s, p0 + step * i, 8) as u8)
}

/// An I macroblock of type `t` at bit `p`: its luma, U and V samples and the bit
/// after it, or `None` when it cannot be read.
pub open spec fn i_mb_spec(s: Seq<u8>, p: int, t: IMbType) -> Option<(Seq<u8>, Seq<u8>, Seq<u8>, int)> {
    match t {
        IMbType::I4x4 => match i4x4_parse(s, p, 16) {
            None => None,
            Some((ms, cs, q)) => Some((luma_i4x4(ms, cs), gray(64), gray(64), q)),
        },
        IMbType::I16x16 { pred_mode, coded_block_pattern, qp_delta } => match i16x16_parse(s, p, coded_block_pattern) {
            None => None,
            Some((dc, acs, q)) => Some((luma_i16x16(pred_mode, coded_block_pattern, dc, acs), gray(64), gray(64), q)),
        },
        IMbType::IPcm => if aligned(p) + 3072 <= s.len() * 8 {
            Some((raw_bytes(s, aligned(p), 256, 8), raw_bytes(s, aligned(p) + 2048, 64, 16),
                raw_bytes(s, aligned(p) + 2056, 64, 16), aligned(p) + 3072))
        } else {
            None
        },
    }
}

/// A decoded I macroblock holds the samples of `i_mb_spec`.
proof fn lemma_i_mb_spec(s: Seq<u8>, p: int, t: IMbType, d: MacroblockData, q: int)
    requires
        i_mb_ok(s, p, t, d, q),
    ensures
        i_mb_spec(s, p, t) == Some((d.luma@, d.chroma_u@, d.chroma_v@, q)),
{
    match t {
        IMbType::I4x4 => {
            let (ms, cs, q2) = i4x4_parse(s, p, 16).unwrap();
            assert forall|i: int| 0 <= i < 256 implies #[trigger] d.luma@[i] == luma_i4x4(ms, cs)[i] by {
                lemma_blocks_cover(i, 4, 4, 16, 256);
            }
            assert(d.luma@ =~= luma_i4x4(ms, cs));
        },
        IMbType::I16x16 { pred_mode, coded_block_pattern, qp_delta } => {
            let (dc, acs, q2) = i16x16_parse(s, p, coded_block_pattern).unwrap();
            assert forall|i: int| 0 <= i < 256 implies
                #[trigger] d.luma@[i] == luma_i16x16(pred_mode, coded_block_pattern, dc, acs)[i] by {
                lemma_blocks_cover(i, 4, 4, 16, 256);
            }
            assert(d.luma@ =~= luma_i16x16(pred_mode, coded_block_pattern, dc, acs));
        },
        IMbType::IPcm => {
            let p0 = aligned(p);
            assert(d.luma@ =~= raw_bytes(s, p0, 256, 8));
            assert forall|i: int| 0 <= i < 64 implies #[trigger] d.chroma_v@[i] == raw_bytes(s, p0 + 2056, 64, 16)[i] by {
                assert(p0 + 2048 + 16 * i + 8 == p0 + 2056 + 16 * i);
            }
            assert(d.chroma_u@ =~= raw_bytes(s, p0 + 2048, 64, 16));
            assert(d.chroma_v@ =~= raw_bytes(s, p0 + 2056, 64, 16));
        },
    }
}

/// Decode an I macroblock of the given type: luma samples, with mid-gray chroma
/// except for I_PCM, which carries all samples raw.
pub fn decode_i_macroblock(br: &mut BitReader, mb_type: IMbType, neighbors_available: bool) -> (r: Result<MacroblockData>)
    requires
        old(br).wf(),
    ensures
        final(br).wf(),
        final(br).bytes() == old(br).bytes(),
        i_mb_fails(old(br).bytes(), old(br).pos(), mb_type) <==> r is Err,
        r matches Ok(d) ==> i_mb_ok(old(br).bytes(), old(br).pos(), mb_type, d, final(br).pos()),
        match i_mb_spec(old(br).bytes(), old(br).pos(), mb_type) {
            Some((l, u, v, q)) => r matches Ok(d) && d.luma@ == l && d.chroma_u@ == u && d.chroma_v@ == v
                && final(br).pos() == q,
            None => r is Err,
        },
{
    let r = match mb_type {
        IMbType::I4x4 => decode_i4x4_macroblock(br, neighbors_available),
        IMbType::I16x16 { pred_mode, coded_block_pattern, qp_delta } =>
            decode_i16x16_macroblock(br, pred_mode, coded_block_pattern, neighbors_available),
        IMbType::IPcm => decode_ipcm_macroblock(br),
    };
    proof {
        if r is Ok {
            lemma_i_mb_spec(old(br).bytes(), old(br).pos(), mb_type, r->Ok_0, br.pos());
        }
    }
    r
}

/// Macroblock type of a P slice.
#[derive(Debug, Clone, Copy, PartialEq, Eq, Structural)]
pub enum PMbType {
    PSkip,
    P16x16,
    P16x8,
    P8x16,
    P8x8,
    P8x8ref0,
    PIntra { intra_type: IMbType },
}

/// The P macroblock type with value `v`: 0 to 4 are inter types; from 5 on the
/// intra types follow, every value past I_16x16 giving I_PCM.
pub open spec fn spec_p_mb_type(v: int) -> PMbType {
    if v == 0 { PMbType::P16x16 } else if v == 1 { PMbType::P16x8 } else if v == 2 { PMbType::P8x16 }
    else if v == 3 { PMbType::P8x8 } else if v == 4 { PMbType::P8x8ref0 }
    else if v == 5 { PMbType::PIntra { intra_type: IMbType::I4x4 } }
    else if v <= 29 { PMbType::PIntra { intra_type: spec_i_mb_type(v - 5).unwrap() } }
    else { PMbType::PIntra { intra_type: IMbType::IPcm } }
}

/// Read the `mb_type` of a P slice.
pub fn decode_mb_type_p(br: &mut BitReader) -> (r: Result<PMbType>)
    requires
        old(br).wf(),
    ensures
        final(br).wf(),
        final(br).bytes() == old(br).bytes(),
        match rd_ue(old(br).bytes(), old(br).pos()) {
            Some((v, q)) => r == Ok::<PMbType, Error>(spec_p_mb_type(v as int)) && final(br).pos() == q,
            None => r is Err,
        },
{
    proof { br.lemma_pos(); }
    let mb_type = br.read_ue()?;
    match mb_type {
        0 => Ok(PMbType::P16x16),
        1 => Ok(PMbType::P16x8),
        2 => Ok(PMbType::P8x16),
        3 => Ok(PMbType::P8x8),
        4 => Ok(PMbType::P8x8ref0),
        _ => {
            let i_type_idx = mb_type - 5;
            if i_type_idx == 0 {
                Ok(PMbType::PIntra { intra_type: IMbType::I4x4 })
            } else if i_type_idx >= 1 && i_type_idx <= 24 {
                Ok(PMbType::PIntra { intra_type: i16x16_type(i_type_idx) })
            } else {
                Ok(PMbType::PIntra { intra_type: IMbType::IPcm })
            }
        },
    }
}

/// Macroblock type of a B slice.
#[derive(Debug, Clone, Copy, PartialEq, Eq, Structural)]
pub enum BMbType {
    BDirect16x16,
    BL016x16,
    BL116x16,
    BBi16x16,
    BL0L016x8,
    BL0L08x16,
    BL1L116x8,
    BL1L18x16,
    BL0L116x8,
    BL0L18x16,
    BL1L016x8,
    BL1L08x16,
    BL0Bi16x8,
    BL0Bi8x16,
    BL1Bi16x8,
    BL1Bi8x16,
    BBiL016x8,
    BBiL08x16,
    BBiL116x8,
    BBiL18x16,
    BBiBi16x8,
    BBiBi8x16,
    B8x8,
    BSkip,
}

/// The B macroblock type with value `v` (0 to 22); the intra values from 23 on
/// give B_Direct_16x16.
pub open spec fn spec_b_mb_type(v: int) -> BMbType {
    if v == 0 { BMbType::BDirect16x16 } else if v == 1 { BMbType::BL016x16 } else if v == 2 { BMbType::BL116x16 }
    else if v == 3 { BMbType::BBi16x16 } else if v == 4 { BMbType::BL0L016x8 } else if v == 5 { BMbType::BL0L08x16 }
    else if v == 6 { BMbType::BL1L116x8 } else if v == 7 { BMbType::BL1L18x16 } else if v == 8 { BMbType::BL0L116x8 }
    else if v == 9 { BMbType::BL0L18x16 } else if v == 10 { BMbType::BL1L016x8 } else if v == 11 { BMbType::BL1L08x16 }
    else if v == 12 { BMbType::BL0Bi16x8 } else if v == 13 { BMbType::BL0Bi8x16 } else if v == 14 { BMbType::BL1Bi16x8 }
    else if v == 15 { BMbType::BL1Bi8x16 } else if v == 16 { BMbType::BBiL016x8 } else if v == 17 { BMbType::BBiL08x16 }
    else if v == 18 { BMbType::BBiL116x8 } else if v == 19 { BMbType::BBiL18x16 } else if v == 20 { BMbType::BBiBi16x8 }
    else if v == 21 { BMbType::BBiBi8x16 } else if v == 22 { BMbType::B8x8 } else { BMbType::BDirect16x16 }
}

/// Read the `mb_type` of a B slice.
pub fn decode_mb_type_b(br: &mut BitReader) -> (r: Result<BMbType>)
    requires
        old(br).wf(),
    ensures
        final(br).wf(),
        final(br).bytes() == old(br).bytes(),
        match rd_ue(old(br).bytes(), old(br).pos()) {
            Some((v, q)) => r == Ok::<BMbType, Error>(spec_b_mb_type(v as int)) && final(br).pos() == q,
            None => r is Err,
        },
{
    proof { br.lemma_pos(); }
    let mb_type = br.read_ue()?;
    match mb_type {
        0 => Ok(BMbType::BDirect16x16),
        1 => Ok(BMbType::BL016x16),
        2 => Ok(BMbType::BL116x16),
        3 => Ok(BMbType::BBi16x16),
        4 => Ok(BMbType::BL0L016x8),
        5 => Ok(BMbType::BL0L08x16),
        6 => Ok(BMbType::BL1L116x8),
        7 => Ok(BMbType::BL1L18x16),
        8 => Ok(BMbType::BL0L116x8),
        9 => Ok(BMbType::BL0L18x16),
        10 => Ok(BMbType::BL1L016x8),
        11 => Ok(BMbType::BL1L08x16),
        12 => Ok(BMbType::BL0Bi16x8),
        13 => Ok(BMbType::BL0Bi8x16),
        14 => Ok(BMbType::BL1Bi16x8),
        15 => Ok(BMbType::BL1Bi8x16),
        16 => Ok(BMbType::BBiL016x8),
        17 => Ok(BMbType::BBiL08x16),
        18 => Ok(BMbType::BBiL116x8),
        19 => Ok(BMbType::BBiL18x16),
        20 => Ok(BMbType::BBiBi16x8),
        21 => Ok(BMbType::BBiBi8x16),
        22 => Ok(BMbType::B8x8),
        _ => Ok(BMbType::BDirect16x16),
    }
}

/// Luma sample `(x, y)` of a P_Skip macroblock at `(mb_x, mb_y)`: the co-located
/// reference sample where the reference has it, else mid-gray.
pub open spec fn skip_sample(reference: Option<Seq<u8>>, fw: int, mb_x: int, mb_y: int, x: int, y: int) -> u8 {
    match reference {
        Some(d) => {
            let ry = mb_y * 16 + y;
            let rx = mb_x * 16 + x;
            if ry < (d.len() as int) / fw && rx < fw { d[ry * fw + rx] } else { 128u8 }
        },
        None => 128u8,
    }
}

/// A P_Skip macroblock: the co-located reference samples, mid-gray chroma.
pub open spec fn skip_mb(d: MacroblockData, reference: Option<Seq<u8>>, fw: int, mb_x: int, mb_y: int) -> bool {
    &&& d.luma@.len() == 256
    &&& forall|y: int, x: int| 0 <= y < 16 && 0 <= x < 16 ==>
        #[trigger] d.luma@[y * 16 + x] == skip_sample(reference, fw, mb_x, mb_y, x, y)
    &&& d.chroma_u@ == gray(64)
    &&& d.chroma_v@ == gray(64)
}

/// The whole macroblock mid-gray.
pub open spec fn gray_mb(d: MacroblockData) -> bool {
    d.luma@ == gray(256) && d.chroma_u@ == gray(64) && d.chroma_v@ == gray(64)
}

/// The quarter-sample reference position of a 16x16 block at `(bx, by)` moved by
/// `(mv_x, mv_y)` can be predicted without overflow or reading past the reference.
pub open spec fn inter16_ok(ref_len: int, width: usize, height: usize, mv_x: int, mv_y: int, bx: usize, by: usize) -> bool {
    &&& bx * 4 + mv_x <= i32::MAX
    &&& by * 4 + mv_y <= i32::MAX
    &&& bx * 4 <= i32::MAX
    &&& by * 4 <= i32::MAX
    &&& bx * 4 + mv_x >= 0 && by * 4 + mv_y >= 0 ==> {
        let qx = (bx * 4 + mv_x) as i32;
        let qy = (by * 4 + mv_y) as i32;
        &&& qpel_int(qx) + 16 <= usize::MAX
        &&& qpel_int(qy) + 16 <= usize::MAX
        &&& (qpel_int(qx) + 16 > width || qpel_int(qy) + 16 > height
            || block_in_source(ref_len, width as int, qpel_int(qx), qpel_int(qy), 16, 16, (qx as int) % 4, (qy as int) % 4))
    }
}

/// The motion vector difference of a P_16x16 macroblock at bit `p`.
pub open spec fn mvd_at(s: Seq<u8>, p: int) -> Option<(int, int, int)> {
    match rd_se(s, p) {
        None => None,
        Some((x, p1)) => match rd_se(s, p1) {
            None => None,
            Some((y, p2)) => Some((x, y, p2)),
        },
    }
}

/// Decode a P_16x16 macroblock: the motion vector difference (over a zero
/// predictor) and the displaced 16x16 reference block; mid-gray without a reference.
fn decode_p_16x16_macroblock(br: &mut BitReader, ref_frame: Option<&[u8]>, frame_width: usize,
    frame_height: usize, mb_x: usize, mb_y: usize) -> (r: Result<MacroblockData>)
    requires
        old(br).wf(),
        ref_frame matches Some(d) ==> (mvd_at(old(br).bytes(), old(br).pos()) matches Some((x, y, q))
            ==> inter16_ok(d@.len() as int, frame_width, frame_height, x, y, mb_x, mb_y)),
    ensures
        final(br).wf(),
        final(br).bytes() == old(br).bytes(),
        match mvd_at(old(br).bytes(), old(br).pos()) {
            None => r is Err,
            Some((x, y, q)) => final(br).pos() == q && match ref_frame {
                None => r matches Ok(d) && gray_mb(d),
                Some(rf) => p16_result(r, rf@, frame_width, frame_height, x, y, mb_x, mb_y),
            },
        },
{
    proof { br.lemma_pos(); lemma_rd_bounds(br.bytes(), br.pos()); }
    let (mvd_x, mvd_y) = parse_mvd(br)?;
    let mvp = predict_motion_vector(None, None, None);
    let mv_x = mvp.x + mvd_x;
    let mv_y = mvp.y + mvd_y;
    let mut predicted: Vec<u8> = vec![0u8; 256];
    match ref_frame {
        Some(ref_data) => {
            let ghost zeros = predicted@;
            assert(mv_x == mvd_x && mv_y == mvd_y);
            let pr = predict_inter(ref_data, frame_width, frame_height, mv_x, mv_y, mb_x, mb_y,
                predicted.as_mut_slice(), 16, 16);
            match pr {
                Ok(()) => {},
                Err(e) => {
                    assert(mb_x * 4 + mv_x < 0 || mb_y * 4 + mv_y < 0
                        || qpel_int((mb_x * 4 + mv_x) as i32) + 16 > frame_width
                        || qpel_int((mb_y * 4 + mv_y) as i32) + 16 > frame_height);
                    return Err(e);
                },
            }
            assert(zeros =~= Seq::new(256, |i: int| 0u8));
        },
        None => {
            predicted = vec![128u8; 256];
        },
    }
    let chroma_u = vec![128u8; 64];
    let chroma_v = vec![128u8; 64];
    assert(chroma_u@ =~= gray(64));
    assert(chroma_v@ =~= gray(64));
    proof {
        if ref_frame is None {
            assert(predicted@ =~= gray(256));
        }
    }
    Ok(MacroblockData { luma: predicted, chroma_u, chroma_v })
}

/// The result of predicting a P_16x16 macroblock from reference `rf` with motion
/// vector `(mv_x, mv_y)`: an error when the displaced position is negative or the
/// block leaves the frame, else the interpolated block with mid-gray chroma.
pub open spec fn p16_result(r: Result<MacroblockData>, rf: Seq<u8>, width: usize, height: usize,
    mv_x: int, mv_y: int, bx: usize, by: usize) -> bool {
    if bx * 4 + mv_x < 0 || by * 4 + mv_y < 0 {
        r is Err
    } else {
        let qx = (bx * 4 + mv_x) as i32;
        let qy = (by * 4 + mv_y) as i32;
        if qpel_int(qx) + 16 > width || qpel_int(qy) + 16 > height {
            r is Err
        } else {
            r matches Ok(d) && d.chroma_u@ == gray(64) && d.chroma_v@ == gray(64)
            && block_written(d.luma@, Seq::new(256, |i: int| 0u8), rf, width as int, qpel_int(qx), qpel_int(qy),
                (qx as int) % 4, (qy as int) % 4, 16, 16)
        }
    }
}

/// Decode a P_Skip macroblock: the co-located 16x16 reference block.
fn decode_p_skip_macroblock(ref_frame: Option<&[u8]>, frame_width: usize, mb_x: usize, mb_y: usize) -> (r: Result<MacroblockData>)
    requires
        ref_frame is Some ==> frame_width > 0 && mb_x * 16 + 15 <= usize::MAX && mb_y * 16 + 15 <= usize::MAX,
    ensures
        r matches Ok(d) && skip_mb(d, match ref_frame { Some(rf) => Some(rf@), None => None }, frame_width as int,
            mb_x as int, mb_y as int),
{
    let ghost reference = match ref_frame { Some(rf) => Some(rf@), None => None::<Seq<u8>> };
    let mut luma: Vec<u8> = vec![128u8; 256];
    if let Some(ref_data) = ref_frame {
        let len = ref_data.len();
        let rows = len / frame_width;
        proof {
            vstd::arithmetic::div_mod::lemma_fundamental_div_mod(len as int, frame_width as int);
            vstd::arithmetic::div_mod::lemma_mod_bound(len as int, frame_width as int);
        }
        let mut y: usize = 0;
        while y < 16
            invariant
                y <= 16,
                frame_width > 0,
                mb_x * 16 + 15 <= usize::MAX,
                mb_y * 16 + 15 <= usize::MAX,
                len == ref_data@.len(),
                rows == len / frame_width,
                len == frame_width * rows + len % frame_width,
                reference == Some(ref_data@),
                luma@.len() == 256,
                forall|yy: int, xx: int| 0 <= yy < 16 && 0 <= xx < 16 ==> #[trigger] luma@[yy * 16 + xx]
                    == (if yy < y { skip_sample(reference, frame_width as int, mb_x as int, mb_y as int, xx, yy) } else { 128u8 }),
            decreases 16 - y,
        {
            let mut x: usize = 0;
            while x < 16
                invariant
                    y < 16,
                    x <= 16,
                    frame_width > 0,
                    mb_x * 16 + 15 <= usize::MAX,
                    mb_y * 16 + 15 <= usize::MAX,
                    len == ref_data@.len(),
                    rows == len / frame_width,
                    len == frame_width * rows + len % frame_width,
                    reference == Some(ref_data@),
                    luma@.len() == 256,
                    forall|yy: int, xx: int| 0 <= yy < 16 && 0 <= xx < 16 ==> #[trigger] luma@[yy * 16 + xx]
                        == (if yy < y || (yy == y && xx < x) { skip_sample(reference, frame_width as int, mb_x as int, mb_y as int, xx, yy) } else { 128u8 }),
                decreases 16 - x,
            {
                let ref_y = mb_y * 16 + y;
                let ref_x = mb_x * 16 + x;
                proof {
                    assert forall|yy: int, xx: int| 0 <= yy < 16 && 0 <= xx < 16 && (yy != y || xx != x) implies
                        #[trigger] (yy * 16 + xx) != y * 16 + x by {
                        if yy * 16 + xx == y * 16 + x {
                            crate::filter::lemma_row_col_unique(yy, xx, y as int, x as int, 16);
                        }
                    }
                }
                if ref_y < rows && ref_x < frame_width {
                    proof {
                        assert(ref_y * frame_width + ref_x < len) by (nonlinear_arith)
                            requires ref_y < rows, ref_x < frame_width, len == frame_width * rows + len % frame_width,
                                len % frame_width >= 0;
                        assert(ref_y * frame_width <= ref_y * frame_width + ref_x);
                    }
                    luma[y * 16 + x] = ref_data[ref_y * frame_width + ref_x];
                }
                x += 1;
            }
            y += 1;
        }
    } else {
        assert(luma@ =~= gray(256));
    }
    let chroma_u = vec![128u8; 64];
    let chroma_v = vec![128u8; 64];
    assert(chroma_u@ =~= gray(64));
    assert(chroma_v@ =~= gray(64));
    Ok(MacroblockData { luma, chroma_u, chroma_v })
}

/// The luma of a 16x16 block predicted at integer position `(x, y)` with fractional
/// position `(xf, yf)` in a reference with rows of `w` samples.
pub open spec fn p16_luma(rf: Seq<u8>, w: int, x: int, y: int, xf: int, yf: int) -> Seq<u8> {
    Seq::new(256, |i: int| interp_sample(rf, w, (y + i / 16) * w + x + i % 16, xf, yf))
}

/// A P macroblock of type `t` at bit `p` in macroblock position `(mb_x, mb_y)`:
/// its luma, U and V samples and the bit after it, or `None` when it cannot be
/// decoded.
pub open spec fn p_mb_spec(s: Seq<u8>, p: int, t: PMbType, rf: Option<Seq<u8>>, w: usize, h: usize,
    mb_x: usize, mb_y: usize) -> Option<(Seq<u8>, Seq<u8>, Seq<u8>, int)> {
    match t {
        PMbType::PSkip => Some((Seq::new(256, |i: int| skip_sample(rf, w as int, mb_x as int, mb_y as int, i % 16, i / 16)),
            gray(64), gray(64), p)),
        PMbType::P16x16 => match mvd_at(s, p) {
            None => None,
            Some((x, y, q)) => match rf {
                None => Some((gray(256), gray(64), gray(64), q)),
                Some(r) => if mb_x * 4 + x < 0 || mb_y * 4 + y < 0 {
                    None
                } else {
                    let qx = (mb_x * 4 + x) as i32;
                    let qy = (mb_y * 4 + y) as i32;
                    if qpel_int(qx) + 16 > w || qpel_int(qy) + 16 > h {
                        None
                    } else {
                        Some((p16_luma(r, w as int, qpel_int(qx), qpel_int(qy), (qx as int) % 4, (qy as int) % 4),
                            gray(64), gray(64), q))
                    }
                },
            },
        },
        PMbType::PIntra { intra_type } => i_mb_spec(s, p, intra_type),
        _ => Some((gray(256), gray(64), gray(64), p)),
    }
}

/// Decode a P-slice macroblock: P_Skip copies the co-located reference block,
/// P_16x16 predicts from its motion vector, intra types decode as in an I slice,
/// and the other partitionings give a mid-gray macroblock.
pub fn decode_p_macroblock(br: &mut BitReader, mb_type: PMbType, ref_frame: Option<&[u8]>,
    frame_width: usize, frame_height: usize, mb_x: usize, mb_y: usize) -> (r: Result<MacroblockData>)
    requires
        old(br).wf(),
        mb_type == PMbType::PSkip && ref_frame is Some ==>
            frame_width > 0 && mb_x * 16 + 15 <= usize::MAX && mb_y * 16 + 15 <= usize::MAX,
        mb_type == PMbType::P16x16 ==> (ref_frame matches Some(d) ==> (mvd_at(old(br).bytes(), old(br).pos())
            matches Some((x, y, q)) ==> inter16_ok(d@.len() as int, frame_width, frame_height, x, y, mb_x, mb_y))),
    ensures
        final(br).wf(),
        final(br).bytes() == old(br).bytes(),
        match mb_type {
            PMbType::PSkip => final(br).pos() == old(br).pos() && (r matches Ok(d) && skip_mb(d,
                match ref_frame { Some(rf) => Some(rf@), None => None }, frame_width as int, mb_x as int, mb_y as int)),
            PMbType::P16x16 => match mvd_at(old(br).bytes(), old(br).pos()) {
                None => r is Err,
                Some((x, y, q)) => final(br).pos() == q && match ref_frame {
                    None => r matches Ok(d) && gray_mb(d),
                    Some(rf) => p16_result(r, rf@, frame_width, frame_height, x, y, mb_x, mb_y),
                },
            },
            PMbType::PIntra { intra_type } =>
                (i_mb_fails(old(br).bytes(), old(br).pos(), intra_type) <==> r is Err)
                && (r matches Ok(d) ==> i_mb_ok(old(br).bytes(), old(br).pos(), intra_type, d, final(br).pos())),
            _ => final(br).pos() == old(br).pos() && (r matches Ok(d) && gray_mb(d)),
        },
        match p_mb_spec(old(br).bytes(), old(br).pos(), mb_type, match ref_frame { Some(rf) => Some(rf@), None => None },
            frame_width, frame_height, mb_x, mb_y) {
            Some((l, u, v, q)) => r matches Ok(d) && d.luma@ == l && d.chroma_u@ == u && d.chroma_v@ == v
                && final(br).pos() == q,
            None => r is Err,
        },
{
    let ghost rf = match ref_frame { Some(rf) => Some(rf@), None => None::<Seq<u8>> };
    let r = match mb_type {
        PMbType::PSkip => decode_p_skip_macroblock(ref_frame, frame_width, mb_x, mb_y),
        PMbType::P16x16 => decode_p_16x16_macroblock(br, ref_frame, frame_width, frame_height, mb_x, mb_y),
        PMbType::PIntra { intra_type } => decode_i_macroblock(br, intra_type, true),
        _ => {
            let luma = vec![128u8; 256];
            let chroma_u = vec![128u8; 64];
            let chroma_v = vec![128u8; 64];
            assert(luma@ =~= gray(256));
            assert(chroma_u@ =~= gray(64));
            assert(chroma_v@ =~= gray(64));
            Ok(MacroblockData { luma, chroma_u, chroma_v })
        },
    };
    proof {
        if r is Ok {
            let d = r->Ok_0;
            match mb_type {
                PMbType::PSkip => {
                    assert forall|i: int| 0 <= i < 256 implies #[trigger] d.luma@[i]
                        == skip_sample(rf, frame_width as int, mb_x as int, mb_y as int, i % 16, i / 16) by {
                        assert(i == (i / 16) * 16 + i % 16);
                        assert(d.luma@[(i / 16) * 16 + i % 16]
                            == skip_sample(rf, frame_width as int, mb_x as int, mb_y as int, i % 16, i / 16));
                    }
                    assert(d.luma@ =~= Seq::new(256, |i: int| skip_sample(rf, frame_width as int, mb_x as int, mb_y as int, i % 16, i / 16)));
                },
                PMbType::P16x16 => {
                    if let Some(r0) = rf {
                        let (x, y, q) = mvd_at(old(br).bytes(), old(br).pos()).unwrap();
                        let qx = (mb_x * 4 + x) as i32;
                        let qy = (mb_y * 4 + y) as i32;
                        let l = p16_luma(r0, frame_width as int, qpel_int(qx), qpel_int(qy), (qx as int) % 4, (qy as int) % 4);
                        assert forall|i: int| 0 <= i < 256 implies #[trigger] d.luma@[i] == l[i] by {
                            assert(i == (i / 16) * 16 + i % 16);
                        }
                        assert(d.luma@ =~= l);
                    }
                },
                _ => {},
            }
        }
    }
    r
}

/// The context models of the macroblock-layer syntax elements.
pub struct CabacMbContext {
    pub mb_type_i: [CabacContext; 11],
    pub mb_type_p: [CabacContext; 14],
    pub mb_type_b: [CabacContext; 27],
    pub coded_block_pattern: [CabacContext; 4],
    pub mvd: [[CabacContext; 7]; 2],
    pub ref_idx: [[CabacContext; 4]; 2],
    pub coded_block_flag: [CabacContext; 3],
    pub significant_coeff_flag: [CabacContext; 15],
    pub last_significant_coeff_flag: [CabacContext; 15],
    pub coeff_abs_level_minus1: [CabacContext; 10],
}

/// Every context of a sequence is valid.
pub open spec fn all_ok(cs: Seq<CabacContext>) -> bool {
    forall|i: int| 0 <= i < cs.len() ==> ctx_ok(#[trigger] cs[i])
}

/// Every context of the macroblock layer is valid.
pub open spec fn mb_ctx_ok(c: CabacMbContext) -> bool {
    &&& all_ok(c.mb_type_i@)
    &&& all_ok(c.mb_type_p@)
    &&& all_ok(c.mb_type_b@)
    &&& all_ok(c.coded_block_pattern@)
    &&& all_ok(c.mvd[0]@)
    &&& all_ok(c.mvd[1]@)
    &&& all_ok(c.ref_idx[0]@)
    &&& all_ok(c.ref_idx[1]@)
    &&& all_ok(c.coded_block_flag@)
    &&& all_ok(c.significant_coeff_flag@)
    &&& all_ok(c.last_significant_coeff_flag@)
    &&& all_ok(c.coeff_abs_level_minus1@)
}

/// The context every model starts from: state 62, most probable symbol 0.
pub open spec fn initial_ctx() -> CabacContext {
    CabacContext { state: 62, mps: 0 }
}

/// `n` contexts, each the result of `CabacContext::init` with its index.
fn init_contexts(n: usize, slice_qp: i32) -> (v: Vec<CabacContext>)
    ensures
        v@ == Seq::new(n as nat, |i: int| initial_ctx()),
{
    let mut v: Vec<CabacContext> = Vec::new();
    let mut i: usize = 0;
    while i < n
        invariant
            i <= n,
            v@ == Seq::new(i as nat, |k: int| initial_ctx()),
        decreases n - i,
    {
        v.push(CabacContext::init(i, slice_qp));
        i += 1;
        assert(v@ =~= Seq::new(i as nat, |k: int| initial_ctx()));
    }
    v
}

impl CabacMbContext {
    /// Every context initialized for the slice QP: all start at state 62 with
    /// most probable symbol 0.
    pub fn init(slice_qp: i32) -> (ctx: CabacMbContext)
        ensures
            mb_ctx_ok(ctx),
            ctx.mb_type_i@ == Seq::new(11, |i: int| initial_ctx()),
            ctx.mb_type_p@ == Seq::new(14, |i: int| initial_ctx()),
            ctx.mb_type_b@ == Seq::new(27, |i: int| initial_ctx()),
            ctx.coded_block_pattern@ == Seq::new(4, |i: int| initial_ctx()),
            ctx.mvd[0]@ == Seq::new(7, |i: int| initial_ctx()),
            ctx.mvd[1]@ == Seq::new(7, |i: int| initial_ctx()),
            ctx.ref_idx[0]@ == Seq::new(4, |i: int| initial_ctx()),
            ctx.ref_idx[1]@ == Seq::new(4, |i: int| initial_ctx()),
            ctx.coded_block_flag@ == Seq::new(3, |i: int| initial_ctx()),
            ctx.significant_coeff_flag@ == Seq::new(15, |i: int| initial_ctx()),
            ctx.last_significant_coeff_flag@ == Seq::new(15, |i: int| initial_ctx()),
            ctx.coeff_abs_level_minus1@ == Seq::new(10, |i: int| initial_ctx()),
    {
        let z = CabacContext::new(0, 0);
        let mut ctx = CabacMbContext {
            mb_type_i: [z; 11],
            mb_type_p: [z; 14],
            mb_type_b: [z; 27],
            coded_block_pattern: [z; 4],
            mvd: [[z; 7]; 2],
            ref_idx: [[z; 4]; 2],
            coded_block_flag: [z; 3],
            significant_coeff_flag: [z; 15],
            last_significant_coeff_flag: [z; 15],
            coeff_abs_level_minus1: [z; 10],
        };
        let v = init_contexts(11, slice_qp);
        let mut i: usize = 0;
        while i < 11
            invariant
                i <= 11,
                v@ == Seq::new(11, |k: int| initial_ctx()),
                forall|k: int| 0 <= k < i ==> ctx.mb_type_i@[k] == initial_ctx(),
            decreases 11 - i,
        {
            ctx.mb_type_i[i] = v[i];
            i += 1;
        }
        let v = init_contexts(14, slice_qp);
        let mut i: usize = 0;
        while i < 14
            invariant
                i <= 14,
                v@ == Seq::new(14, |k: int| initial_ctx()),
                forall|k: int| 0 <= k < 11 ==> ctx.mb_type_i@[k] == initial_ctx(),
                forall|k: int| 0 <= k < i ==> ctx.mb_type_p@[k] == initial_ctx(),
            decreases 14 - i,
        {
            ctx.mb_type_p[i] = v[i];
            i += 1;
        }
        let v = init_contexts(27, slice_qp);
        let mut i: usize = 0;
        while i < 27
            invariant
                i <= 27,
                v@ == Seq::new(27, |k: int| initial_ctx()),
                forall|k: int| 0 <= k < 11 ==> ctx.mb_type_i@[k] == initial_ctx(),
                forall|k: int| 0 <= k < 14 ==> ctx.mb_type_p@[k] == initial_ctx(),
                forall|k: int| 0 <= k < i ==> ctx.mb_type_b@[k] == initial_ctx(),
            decreases 27 - i,
        {
            ctx.mb_type_b[i] = v[i];
            i += 1;
        }
        let c = CabacContext::init(0, slice_qp);
        ctx.coded_block_pattern = [c; 4];
        ctx.mvd = [[c; 7]; 2];
        ctx.ref_idx = [[c; 4]; 2];
        ctx.coded_block_flag = [c; 3];
        ctx.significant_coeff_flag = [c; 15];
        ctx.last_significant_coeff_flag = [c; 15];
        ctx.coeff_abs_level_minus1 = [c; 10];
        assert(ctx.mb_type_i@ =~= Seq::new(11, |i: int| initial_ctx()));
        assert(ctx.mb_type_p@ =~= Seq::new(14, |i: int| initial_ctx()));
        assert(ctx.mb_type_b@ =~= Seq::new(27, |i: int| initial_ctx()));
        assert(ctx.coded_block_pattern@ =~= Seq::new(4, |i: int| initial_ctx()));
        assert(ctx.mvd[0]@ =~= Seq::new(7, |i: int| initial_ctx()));
        assert(ctx.mvd[1]@ =~= Seq::new(7, |i: int| initial_ctx()));
        assert(ctx.ref_idx[0]@ =~= Seq::new(4, |i: int| initial_ctx()));
        assert(ctx.ref_idx[1]@ =~= Seq::new(4, |i: int| initial_ctx()));
        assert(ctx.coded_block_flag@ =~= Seq::new(3, |i: int| initial_ctx()));
        assert(ctx.significant_coeff_flag@ =~= Seq::new(15, |i: int| initial_ctx()));
        assert(ctx.last_significant_coeff_flag@ =~= Seq::new(15, |i: int| initial_ctx()));
        assert(ctx.coeff_abs_level_minus1@ =~= Seq::new(10, |i: int| initial_ctx()));
        ctx
    }
}

/// The engine state of a decoder: bit position, range, offset.
pub type Engine = (int, u16, u16);

/// The contexts of `a` and `b` agree outside the groups flagged: I, P and B
/// macroblock types, coded block pattern, motion vector differences, and the
/// coefficient groups (significance, last, level).
pub open spec fn same_except(a: CabacMbContext, b: CabacMbContext, i: bool, p: bool, bt: bool, cbp: bool,
    mvd: bool, coef: bool) -> bool {
    &&& !i ==> a.mb_type_i == b.mb_type_i
    &&& !p ==> a.mb_type_p == b.mb_type_p
    &&& !bt ==> a.mb_type_b == b.mb_type_b
    &&& !cbp ==> a.coded_block_pattern == b.coded_block_pattern
    &&& !mvd ==> a.mvd == b.mvd
    &&& a.ref_idx == b.ref_idx
    &&& a.coded_block_flag == b.coded_block_flag
    &&& !coef ==> a.significant_coeff_flag == b.significant_coeff_flag
        && a.last_significant_coeff_flag == b.last_significant_coeff_flag
        && a.coeff_abs_level_minus1 == b.coeff_abs_level_minus1
}

/// A context-coded bin is a bit.
proof fn lemma_decision_bit(s: Seq<u8>, e: Engine, c: CabacContext)
    requires
        ctx_ok(c),
    ensures
        decision(s, e, c) matches Some((b, e2, c2)) ==> b <= 1 && ctx_ok(c2),
{
    if let Some((b, e2, c2)) = decision(s, e, c) {
        lemma_updated_ok(c, b);
    }
}

/// Unary bins in one context, `count` already read: the count of 1 bins before a
/// 0 bin, stopping at `max`.
pub open spec fn unary_run(s: Seq<u8>, e: Engine, c: CabacContext, count: int, max: int) -> Option<(int, Engine, CabacContext)>
    decreases max - count,
{
    if count >= max {
        Some((count, e, c))
    } else {
        match decision(s, e, c) {
            None => None,
            Some((b, e2, c2)) => if b == 0 { Some((count, e2, c2)) } else { unary_run(s, e2, c2, count + 1, max) },
        }
    }
}

/// A unary count lies between the bins already read and the maximum.
proof fn lemma_unary_bound(s: Seq<u8>, e: Engine, c: CabacContext, count: int, max: int)
    requires
        count <= max,
    ensures
        unary_run(s, e, c, count, max) matches Some((v, e2, c2)) ==> count <= v <= max,
    decreases max - count,
{
    if count < max {
        if let Some((b, e2, c2)) = decision(s, e, c) {
            if b != 0 {
                lemma_unary_bound(s, e2, c2, count + 1, max);
            }
        }
    }
}

/// Decode a unary value of at most `max` with every bin in context `c`.
fn unary_ctx(decoder: &mut CabacDecoder, c: &mut CabacContext, max: u32) -> (r: Result<u32>)
    requires
        old(decoder).wf(),
        ctx_ok(*old(c)),
    ensures
        final(decoder).bytes() == old(decoder).bytes(),
        match unary_run(old(decoder).bytes(), old(decoder).engine(), *old(c), 0, max as int) {
            Some((v, e, c2)) => r == Ok::<u32, Error>(v as u32) && final(decoder).engine() == e && final(decoder).wf()
                && *final(c) == c2 && ctx_ok(c2),
            None => r is Err,
        },
{
    let ghost s = decoder.bytes();
    let ghost target = unary_run(s, decoder.engine(), *c, 0, max as int);
    let mut sym_val: u32 = 0;
    while sym_val < max
        invariant_except_break
            decoder.wf(),
            decoder.bytes() == s,
            s == old(decoder).bytes(),
            target == unary_run(old(decoder).bytes(), old(decoder).engine(), *old(c), 0, max as int),
            ctx_ok(*c),
            sym_val <= max,
            unary_run(s, decoder.engine(), *c, sym_val as int, max as int) == target,
        ensures
            decoder.wf(),
            decoder.bytes() == s,
            ctx_ok(*c),
            target == Some((sym_val as int, decoder.engine(), *c)),
        decreases max - sym_val,
    {
        proof { lemma_decision_bit(s, decoder.engine(), *c); }
        let bin = decoder.decode_decision(c)?;
        if bin == 0 {
            break;
        }
        sym_val += 1;
    }
    Ok(sym_val)
}

/// The I macroblock type bins after the first two: up to six bins in contexts 1
/// to 6, counting the 1 bins before a 0 bin.
pub open spec fn i16_bins(s: Seq<u8>, e: Engine, ci: Seq<CabacContext>, idx: int, sym: int) -> Option<(int, Engine, Seq<CabacContext>)>
    decreases 7 - idx,
{
    if idx > 6 {
        Some((sym, e, ci))
    } else {
        match decision(s, e, ci[idx]) {
            None => None,
            Some((b, e2, c2)) => if b == 0 {
                Some((sym, e2, ci.update(idx, c2)))
            } else {
                i16_bins(s, e2, ci.update(idx, c2), idx + 1, sym + 1)
            },
        }
    }
}

/// The I macroblock type with CABAC: a 0 first bin is I_4x4; else a terminating 1
/// bin is I_PCM; else the count of further 1 bins selects the I_16x16 type. The
/// type, the engine after it and the updated I-type contexts.
pub open spec fn mb_type_i_cabac(s: Seq<u8>, e: Engine, ci: Seq<CabacContext>) -> Option<(IMbType, Engine, Seq<CabacContext>)> {
    match decision(s, e, ci[0]) {
        None => None,
        Some((b0, e1, c0)) => {
            let ci1 = ci.update(0, c0);
            if b0 == 0 {
                Some((IMbType::I4x4, e1, ci1))
            } else {
                match terminate(s, e1) {
                    None => None,
                    Some((t, e2)) => if t == 1 {
                        Some((IMbType::IPcm, e2, ci1))
                    } else {
                        match i16_bins(s, e2, ci1, 1, 0) {
                            None => None,
                            Some((sym, e3, ci2)) => Some((spec_i_mb_type(sym + 1).unwrap(), e3, ci2)),
                        }
                    },
                }
            }
        },
    }
}

/// Decode the I macroblock type with CABAC.
pub fn decode_mb_type_i_cabac(decoder: &mut CabacDecoder, ctx: &mut CabacMbContext) -> (r: Result<IMbType>)
    requires
        old(decoder).wf(),
        mb_ctx_ok(*old(ctx)),
    ensures
        final(decoder).bytes() == old(decoder).bytes(),
        match mb_type_i_cabac(old(decoder).bytes(), old(decoder).engine(), old(ctx).mb_type_i@) {
            Some((t, e, ci)) => r == Ok::<IMbType, Error>(t) && final(decoder).engine() == e
                && final(decoder).pos_ok() && (t != IMbType::IPcm ==> final(decoder).wf())
                && final(ctx).mb_type_i@ == ci && mb_ctx_ok(*final(ctx))
                && same_except(*final(ctx), *old(ctx), true, false, false, false, false, false),
            None => r is Err,
        },
{
    let ghost s = decoder.bytes();
    let ghost e0 = decoder.engine();
    let ghost ci0 = ctx.mb_type_i@;
    let mut c0 = ctx.mb_type_i[0];
    proof { lemma_decision_bit(s, e0, c0); }
    let res = decoder.decode_decision(&mut c0);
    ctx.mb_type_i[0] = c0;
    let bin0 = res?;
    if bin0 == 0 {
        return Ok(IMbType::I4x4);
    }
    let bin1 = decoder.decode_terminate()?;
    if bin1 == 1 {
        return Ok(IMbType::IPcm);
    }
    let ghost ci1 = ctx.mb_type_i@;
    let ghost e2 = decoder.engine();
    let ghost target = mb_type_i_cabac(old(decoder).bytes(), old(decoder).engine(), old(ctx).mb_type_i@);
    assert(target == match i16_bins(s, e2, ci1, 1, 0) {
        None => None,
        Some((sym, e3, ci2)) => Some((spec_i_mb_type(sym + 1).unwrap(), e3, ci2)),
    });
    let mut sym_val: u32 = 0;
    let mut ctx_idx: usize = 1;
    while ctx_idx <= 6
        invariant_except_break
            decoder.wf(),
            decoder.bytes() == s,
            s == old(decoder).bytes(),
            target == mb_type_i_cabac(old(decoder).bytes(), old(decoder).engine(), old(ctx).mb_type_i@),
            target == match i16_bins(s, e2, ci1, 1, 0) {
                None => None,
                Some((sym, e3, ci2)) => Some((spec_i_mb_type(sym + 1).unwrap(), e3, ci2)),
            },
            1 <= ctx_idx <= 7,
            sym_val == ctx_idx - 1,
            mb_ctx_ok(*ctx),
            same_except(*ctx, *old(ctx), true, false, false, false, false, false),
            i16_bins(s, e2, ci1, 1, 0) == i16_bins(s, decoder.engine(), ctx.mb_type_i@, ctx_idx as int, sym_val as int),
        ensures
            decoder.wf(),
            decoder.bytes() == s,
            sym_val <= 6,
            mb_ctx_ok(*ctx),
            same_except(*ctx, *old(ctx), true, false, false, false, false, false),
            i16_bins(s, e2, ci1, 1, 0) == Some((sym_val as int, decoder.engine(), ctx.mb_type_i@)),
        decreases 7 - ctx_idx,
    {
        let ci = if ctx_idx < 10 { ctx_idx } else { 10 };
        let mut c = ctx.mb_type_i[ci];
        proof { lemma_decision_bit(s, decoder.engine(), c); }
        let res = decoder.decode_decision(&mut c);
        ctx.mb_type_i[ci] = c;
        let bin = match res {
            Ok(b) => b,
            Err(e) => {
                return Err(e);
            },
        };
        if bin == 0 {
            break;
        }
        sym_val += 1;
        ctx_idx += 1;
    }
    sym_val += 1;
    if sym_val < 1 || sym_val > 24 {
        return Err(Error::invalid("CABAC", "Invalid I_16x16 mb_type"));
    }
    Ok(i16x16_type(sym_val))
}

/// The P macroblock type with CABAC: a truncated unary prefix (at most 4) in the
/// first P-type context selects P_16x16, P_16x8, P_8x16 or P_8x8, and 4 an intra
/// type read as in an I slice. The type, the engine after it, and the updated P-type
/// and I-type contexts.
pub open spec fn mb_type_p_cabac(s: Seq<u8>, e: Engine, cp: Seq<CabacContext>, ci: Seq<CabacContext>)
    -> Option<(PMbType, Engine, Seq<CabacContext>, Seq<CabacContext>)> {
    match unary_run(s, e, cp[0], 0, 4) {
        None => None,
        Some((prefix, e1, c1)) => {
            let cp1 = cp.update(0, c1);
            if prefix == 0 {
                Some((PMbType::P16x16, e1, cp1, ci))
            } else if prefix == 1 {
                Some((PMbType::P16x8, e1, cp1, ci))
            } else if prefix == 2 {
                Some((PMbType::P8x16, e1, cp1, ci))
            } else if prefix == 3 {
                Some((PMbType::P8x8, e1, cp1, ci))
            } else {
                match mb_type_i_cabac(s, e1, ci) {
                    None => None,
                    Some((t, e2, ci2)) => Some((PMbType::PIntra { intra_type: t }, e2, cp1, ci2)),
                }
            }
        },
    }
}

/// Decode the P macroblock type with CABAC.
#[verifier::rlimit(50)]
#[verifier::spinoff_prover]
pub fn decode_mb_type_p_cabac(decoder: &mut CabacDecoder, ctx: &mut CabacMbContext) -> (r: Result<PMbType>)
    requires
        old(decoder).wf(),
        mb_ctx_ok(*old(ctx)),
    ensures
        final(decoder).bytes() == old(decoder).bytes(),
        match mb_type_p_cabac(old(decoder).bytes(), old(decoder).engine(), old(ctx).mb_type_p@, old(ctx).mb_type_i@) {
            Some((t, e, cp, ci)) => r == Ok::<PMbType, Error>(t) && final(decoder).engine() == e
                && final(decoder).pos_ok() && (e.1 >= 0x100 ==> final(decoder).wf())
                && final(ctx).mb_type_p@ == cp && final(ctx).mb_type_i@ == ci && mb_ctx_ok(*final(ctx))
                && same_except(*final(ctx), *old(ctx), true, true, false, false, false, false),
            None => r is Err,
        },
{
    let mut c = ctx.mb_type_p[0];
    proof { lemma_unary_bound(decoder.bytes(), decoder.engine(), c, 0, 4); }
    let res = unary_ctx(decoder, &mut c, 4);
    ctx.mb_type_p[0] = c;
    let prefix = res?;
    assert(ctx.mb_type_p@ == old(ctx).mb_type_p@.update(0, c));
    assert(mb_ctx_ok(*ctx));
    assert(same_except(*ctx, *old(ctx), false, true, false, false, false, false));
    match prefix {
        0 => Ok(PMbType::P16x16),
        1 => Ok(PMbType::P16x8),
        2 => Ok(PMbType::P8x16),
        3 => Ok(PMbType::P8x8),
        4 => {
            let i_type = decode_mb_type_i_cabac(decoder, ctx)?;
            proof {
                if decoder.engine().1 >= 0x100 {
                    decoder.lemma_wf();
                }
            }
            Ok(PMbType::PIntra { intra_type: i_type })
        },
        _ => Err(Error::invalid("CABAC", "Invalid P-slice mb_type")),
    }
}

/// The B macroblock type after two 1 bins: a truncated unary count (at most 20) in
/// B-type context 4, plus 4, picks the type; past 22 an intra type is read and
/// B_Direct_16x16 stands for it.
pub open spec fn b_type_of(v: int) -> BMbType {
    if v == 4 { BMbType::BL0L016x8 } else if v == 5 { BMbType::BL0L08x16 }
    else if v == 6 { BMbType::BL1L116x8 } else if v == 7 { BMbType::BL1L18x16 }
    else if v == 22 { BMbType::B8x8 } else { BMbType::BDirect16x16 }
}

/// The B macroblock type with CABAC: a 0 first bin is B_Direct_16x16; after a 1,
/// a 0 second bin leads to two bins choosing L0, L1 or Bi 16x16; a 1 second bin to a
/// unary count. The type, the engine after it, and the updated B-type and I-type
/// contexts.
pub open spec fn mb_type_b_cabac(s: Seq<u8>, e: Engine, cb: Seq<CabacContext>, ci: Seq<CabacContext>)
    -> Option<(BMbType, Engine, Seq<CabacContext>, Seq<CabacContext>)> {
    match decision(s, e, cb[0]) {
        None => None,
        Some((b0, e1, c0)) => {
            let cb1 = cb.update(0, c0);
            if b0 == 0 {
                Some((BMbType::BDirect16x16, e1, cb1, ci))
            } else {
                match decision(s, e1, cb1[1]) {
                    None => None,
                    Some((b1, e2, c1)) => {
                        let cb2 = cb1.update(1, c1);
                        if b1 == 0 {
                            match decision(s, e2, cb2[2]) {
                                None => None,
                                Some((b2, e3, c2)) => {
                                    let cb3 = cb2.update(2, c2);
                                    match decision(s, e3, cb3[3]) {
                                        None => None,
                                        Some((b3, e4, c3)) => {
                                            let cb4 = cb3.update(3, c3);
                                            if b2 == 0 && b3 == 0 {
                                                Some((BMbType::BL016x16, e4, cb4, ci))
                                            } else if b2 == 0 && b3 == 1 {
                                                Some((BMbType::BL116x16, e4, cb4, ci))
                                            } else if b2 == 1 {
                                                Some((BMbType::BBi16x16, e4, cb4, ci))
                                            } else {
                                                None
                                            }
                                        },
                                    }
                                },
                            }
                        } else {
                            match unary_run(s, e2, cb2[4], 0, 20) {
                                None => None,
                                Some((add, e3, c4)) => {
                                    let cb3 = cb2.update(4, c4);
                                    if 4 + add <= 22 {
                                        Some((b_type_of(4 + add), e3, cb3, ci))
                                    } else {
                                        match mb_type_i_cabac(s, e3, ci) {
                                            None => None,
                                            Some((t, e4, ci2)) => Some((BMbType::BDirect16x16, e4, cb3, ci2)),
                                        }
                                    }
                                },
                            }
                        }
                    },
                }
            }
        },
    }
}

/// Decode the B macroblock type with CABAC.
#[verifier::rlimit(50)]
#[verifier::spinoff_prover]
pub fn decode_mb_type_b_cabac(decoder: &mut CabacDecoder, ctx: &mut CabacMbContext) -> (r: Result<BMbType>)
    requires
        old(decoder).wf(),
        mb_ctx_ok(*old(ctx)),
    ensures
        final(decoder).bytes() == old(decoder).bytes(),
        match mb_type_b_cabac(old(decoder).bytes(), old(decoder).engine(), old(ctx).mb_type_b@, old(ctx).mb_type_i@) {
            Some((t, e, cb, ci)) => r == Ok::<BMbType, Error>(t) && final(decoder).engine() == e
                && final(decoder).pos_ok() && (e.1 >= 0x100 ==> final(decoder).wf())
                && final(ctx).mb_type_b@ == cb && final(ctx).mb_type_i@ == ci && mb_ctx_ok(*final(ctx))
                && same_except(*final(ctx), *old(ctx), true, false, true, false, false, false),
            None => r is Err,
        },
{
    let ghost s = decoder.bytes();
    let mut c = ctx.mb_type_b[0];
    proof { lemma_decision_bit(s, decoder.engine(), c); }
    let res = decoder.decode_decision(&mut c);
    ctx.mb_type_b[0] = c;
    let bin0 = res?;
    if bin0 == 0 {
        return Ok(BMbType::BDirect16x16);
    }
    let mut c = ctx.mb_type_b[1];
    proof { lemma_decision_bit(s, decoder.engine(), c); }
    let res = decoder.decode_decision(&mut c);
    ctx.mb_type_b[1] = c;
    let bin1 = res?;
    if bin1 == 0 {
        let mut c = ctx.mb_type_b[2];
        proof { lemma_decision_bit(s, decoder.engine(), c); }
        let res = decoder.decode_decision(&mut c);
        ctx.mb_type_b[2] = c;
        let bin2 = res?;
        let mut c = ctx.mb_type_b[3];
        proof { lemma_decision_bit(s, decoder.engine(), c); }
        let res = decoder.decode_decision(&mut c);
        ctx.mb_type_b[3] = c;
        let bin3 = res?;
        match (bin2, bin3) {
            (0, 0) => Ok(BMbType::BL016x16),
            (0, 1) => Ok(BMbType::BL116x16),
            (1, _) => Ok(BMbType::BBi16x16),
            _ => Err(Error::invalid("CABAC", "Invalid B mb_type")),
        }
    } else {
        let mut c = ctx.mb_type_b[4];
        proof { lemma_unary_bound(s, decoder.engine(), c, 0, 20); }
        let res = unary_ctx(decoder, &mut c, 20);
        ctx.mb_type_b[4] = c;
        let additional = res?;
        let mb_type_val = 4 + additional;
        if mb_type_val <= 22 {
            match mb_type_val {
                4 => Ok(BMbType::BL0L016x8),
                5 => Ok(BMbType::BL0L08x16),
                6 => Ok(BMbType::BL1L116x8),
                7 => Ok(BMbType::BL1L18x16),
                22 => Ok(BMbType::B8x8),
                _ => Ok(BMbType::BDirect16x16),
            }
        } else {
            let i_type = decode_mb_type_i_cabac(decoder, ctx)?;
            proof {
                if decoder.engine().1 >= 0x100 {
                    decoder.lemma_wf();
                }
            }
            Ok(BMbType::BDirect16x16)
        }
    }
}

/// The Exp-Golomb prefix in one context, `k` zero bins already read: the number of
/// zero bins before a 1 bin; a 32nd zero bin is an error.
pub open spec fn eg_prefix(s: Seq<u8>, e: Engine, c: CabacContext, k: int) -> Option<(int, Engine, CabacContext)>
    decreases 32 - k,
{
    if k > 31 {
        None
    } else {
        match decision(s, e, c) {
            None => None,
            Some((b, e2, c2)) => if b != 0 {
                Some((k, e2, c2))
            } else if k == 31 {
                None
            } else {
                eg_prefix(s, e2, c2, k + 1)
            },
        }
    }
}

/// `n` suffix bins in one context, appended to `acc` most significant first.
pub open spec fn eg_suffix(s: Seq<u8>, e: Engine, c: CabacContext, n: nat, acc: int) -> Option<(int, Engine, CabacContext)>
    decreases n,
{
    if n == 0 {
        Some((acc, e, c))
    } else {
        match decision(s, e, c) {
            None => None,
            Some((b, e2, c2)) => eg_suffix(s, e2, c2, (n - 1) as nat, acc * 2 + b),
        }
    }
}

/// An Exp-Golomb value in one context: `2^k - 1` plus the `k`-bin suffix.
pub open spec fn eg_run(s: Seq<u8>, e: Engine, c: CabacContext) -> Option<(int, Engine, CabacContext)> {
    match eg_prefix(s, e, c, 0) {
        None => None,
        Some((k, e1, c1)) => match eg_suffix(s, e1, c1, k as nat, 0) {
            None => None,
            Some((suf, e2, c2)) => Some((pow2(k as nat) - 1 + suf, e2, c2)),
        },
    }
}

proof fn lemma_eg_prefix(s: Seq<u8>, e: Engine, c: CabacContext, k: int)
    requires
        0 <= k,
    ensures
        eg_prefix(s, e, c, k) matches Some((k2, e2, c2)) ==> k <= k2 <= 31,
    decreases 32 - k,
{
    if k <= 31 {
        if let Some((b, e2, c2)) = decision(s, e, c) {
            if b == 0 && k < 31 {
                lemma_eg_prefix(s, e2, c2, k + 1);
            }
        }
    }
}

proof fn lemma_eg_suffix(s: Seq<u8>, e: Engine, c: CabacContext, n: nat, acc: int)
    requires
        ctx_ok(c),
        acc >= 0,
    ensures
        eg_suffix(s, e, c, n, acc) matches Some((v, e2, c2)) ==> 0 <= v < (acc + 1) * pow2(n),
    decreases n,
{
    if n == 0 {
        vstd::arithmetic::power2::lemma_pow2(0);
        vstd::arithmetic::power::lemma_pow0(2);
    } else {
        lemma_decision_bit(s, e, c);
        if let Some((b, e2, c2)) = decision(s, e, c) {
            lemma_eg_suffix(s, e2, c2, (n - 1) as nat, acc * 2 + b);
            lemma_pow2_unfold(n);
            if let Some((v, e3, c3)) = eg_suffix(s, e2, c2, (n - 1) as nat, acc * 2 + b) {
                let p = pow2((n - 1) as nat);
                assert(v < (acc + 1) * pow2(n)) by (nonlinear_arith)
                    requires v < (acc * 2 + b + 1) * p, b <= 1, pow2(n) == 2 * p, p >= 0;
            }
        }
    }
}

/// Decode an Exp-Golomb value with every bin in context `c`.
fn eg_ctx(decoder: &mut CabacDecoder, c: &mut CabacContext) -> (r: Result<u32>)
    requires
        old(decoder).wf(),
        ctx_ok(*old(c)),
    ensures
        final(decoder).bytes() == old(decoder).bytes(),
        match eg_run(old(decoder).bytes(), old(decoder).engine(), *old(c)) {
            Some((v, e, c2)) => r == Ok::<u32, Error>(v as u32) && 0 <= v < 0xffff_ffff && final(decoder).engine() == e
                && final(decoder).wf() && *final(c) == c2 && ctx_ok(c2),
            None => r is Err,
        },
{
    let ghost s = decoder.bytes();
    let ghost e0 = decoder.engine();
    let ghost c0 = *c;
    let mut k: u32 = 0;
    loop
        invariant_except_break
            decoder.wf(),
            decoder.bytes() == s,
            s == old(decoder).bytes(),
            e0 == old(decoder).engine(),
            c0 == *old(c),
            ctx_ok(*c),
            k <= 31,
            eg_prefix(s, e0, c0, 0) == eg_prefix(s, decoder.engine(), *c, k as int),
        ensures
            decoder.wf(),
            decoder.bytes() == s,
            ctx_ok(*c),
            k <= 31,
            eg_prefix(s, e0, c0, 0) == Some((k as int, decoder.engine(), *c)),
        decreases 31 - k,
    {
        proof { lemma_decision_bit(s, decoder.engine(), *c); }
        let bin = decoder.decode_decision(c)?;
        if bin != 0 {
            break;
        }
        if k == 31 {
            return Err(Error::invalid("CABAC", "Exp-Golomb prefix too long"));
        }
        k += 1;
    }
    let ghost e1 = decoder.engine();
    let ghost c1 = *c;
    let mut suffix: u32 = 0;
    let mut i: u32 = 0;
    proof {
        vstd::arithmetic::power2::lemma_pow2(0);
        vstd::arithmetic::power::lemma_pow0(2);
    }
    while i < k
        invariant
            decoder.wf(),
            decoder.bytes() == s,
            s == old(decoder).bytes(),
            e0 == old(decoder).engine(),
            c0 == *old(c),
            ctx_ok(*c),
            k <= 31,
            i <= k,
            eg_prefix(s, e0, c0, 0) == Some((k as int, e1, c1)),
            suffix < pow2(i as nat),
            eg_suffix(s, e1, c1, k as nat, 0) == eg_suffix(s, decoder.engine(), *c, (k - i) as nat, suffix as int),
        decreases k - i,
    {
        proof {
            lemma_decision_bit(s, decoder.engine(), *c);
            vstd::bits::lemma_u32_pow2_no_overflow(i as nat);
            vstd::arithmetic::power2::lemma_pow2_strictly_increases(i as nat, 31);
            vstd::bits::lemma_u32_pow2_no_overflow(31);
            lemma2_to64();
        }
        let bin = decoder.decode_decision(c)?;
        let next = (suffix << 1) | bin as u32;
        assert(next == suffix * 2 + bin) by (bit_vector)
            requires next == (suffix << 1) | bin as u32, suffix < 0x8000_0000u32, bin <= 1u8;
        proof { lemma_pow2_unfold((i + 1) as nat); }
        suffix = next;
        i += 1;
    }
    proof {
        lemma_eg_suffix(s, e1, c1, k as nat, 0);
        vstd::bits::lemma_u32_pow2_no_overflow(k as nat);
        vstd::bits::lemma_u32_shl_is_mul(1, k);
        vstd::arithmetic::power2::lemma_pow2_strictly_increases(k as nat, 32);
        lemma_pow2_unfold(32);
        lemma2_to64();
        if k < 31 {
            vstd::arithmetic::power2::lemma_pow2_strictly_increases(k as nat, 31);
        }
    }
    let p = 1u32 << k;
    let base = p - 1;
    assert(base as int + suffix as int <= 0xffff_fffe) by {
        if k == 31 {
            assert(pow2(31) == 0x8000_0000) by { lemma2_to64(); }
        } else {
            vstd::arithmetic::power2::lemma_pow2_strictly_increases(k as nat, 31);
            assert(pow2(31) == 0x8000_0000) by { lemma2_to64(); }
        }
    }
    match base.checked_add(suffix) {
        Some(v) => Ok(v),
        None => Err(Error::invalid("CABAC", "Exp-Golomb value overflow")),
    }
}

/// `a` negated, with the smallest `i32` left as it is.
pub open spec fn neg_wrap(a: i32) -> i32 {
    if a == i32::MIN { a } else { (-a) as i32 }
}

/// One motion vector difference component: a 0 bin in context `c0` is zero; else
/// an Exp-Golomb magnitude minus one in context `c1` and a bypass sign bin.
pub open spec fn mvd_comp(s: Seq<u8>, e: Engine, c0: CabacContext, c1: CabacContext) -> Option<(i32, Engine, CabacContext, CabacContext)> {
    match decision(s, e, c0) {
        None => None,
        Some((b, e1, c0a)) => if b == 0 {
            Some((0i32, e1, c0a, c1))
        } else {
            match eg_run(s, e1, c1) {
                None => None,
                Some((v, e2, c1a)) => match bypass(s, e2) {
                    None => None,
                    Some((sign, e3)) => {
                        let a = ((v + 1) as u32) as i32;
                        Some((if sign == 1 { neg_wrap(a) } else { a }, e3, c0a, c1a))
                    },
                },
            }
        },
    }
}

/// Decode one motion vector difference component.
fn mvd_component(decoder: &mut CabacDecoder, c0: &mut CabacContext, c1: &mut CabacContext) -> (r: Result<i32>)
    requires
        old(decoder).wf(),
        ctx_ok(*old(c0)),
        ctx_ok(*old(c1)),
    ensures
        final(decoder).bytes() == old(decoder).bytes(),
        match mvd_comp(old(decoder).bytes(), old(decoder).engine(), *old(c0), *old(c1)) {
            Some((v, e, c0a, c1a)) => r == Ok::<i32, Error>(v) && final(decoder).engine() == e && final(decoder).wf()
                && *final(c0) == c0a && *final(c1) == c1a && ctx_ok(c0a) && ctx_ok(c1a),
            None => r is Err,
        },
{
    proof { lemma_decision_bit(decoder.bytes(), decoder.engine(), *c0); }
    if decoder.decode_decision(c0)? == 0 {
        Ok(0)
    } else {
        let ghost e1 = decoder.engine();
        let ghost c1_before = *c1;
        let v = eg_ctx(decoder, c1)?;
        assert(eg_run(decoder.bytes(), e1, c1_before) matches Some((w, e2, c2)) && v == w);
        let abs_mvd = v + 1;
        let sign = decoder.decode_bypass()?;
        let a = #[verifier::truncate] (abs_mvd as i32);
        if sign == 1 {
            if a == i32::MIN { Ok(a) } else { Ok(-a) }
        } else {
            Ok(a)
        }
    }
}

/// The motion vector difference of list `row`: horizontal then vertical component,
/// both in its first two contexts.
pub open spec fn mvd_cabac(s: Seq<u8>, e: Engine, row: Seq<CabacContext>) -> Option<((i32, i32), Engine, Seq<CabacContext>)> {
    match mvd_comp(s, e, row[0], row[1]) {
        None => None,
        Some((x, e1, c0, c1)) => match mvd_comp(s, e1, c0, c1) {
            None => None,
            Some((y, e2, c0b, c1b)) => Some(((x, y), e2, row.update(0, c0b).update(1, c1b))),
        },
    }
}

/// Decode a motion vector difference of reference list `list` with CABAC.
pub fn decode_mvd_cabac(decoder: &mut CabacDecoder, ctx: &mut CabacMbContext, list: usize) -> (r: Result<(i32, i32)>)
    requires
        old(decoder).wf(),
        mb_ctx_ok(*old(ctx)),
        list < 2,
    ensures
        final(decoder).bytes() == old(decoder).bytes(),
        match mvd_cabac(old(decoder).bytes(), old(decoder).engine(), old(ctx).mvd[list as int]@) {
            Some((v, e, row)) => r == Ok::<(i32, i32), Error>(v) && final(decoder).engine() == e && final(decoder).wf()
                && final(ctx).mvd[list as int]@ == row && final(ctx).mvd[1 - list] == old(ctx).mvd[1 - list]
                && mb_ctx_ok(*final(ctx))
                && same_except(*final(ctx), *old(ctx), false, false, false, false, true, false),
            None => r is Err,
        },
{
    let mut row = ctx.mvd[list];
    let mut c0 = row[0];
    let mut c1 = row[1];
    let rx = mvd_component(decoder, &mut c0, &mut c1);
    row[0] = c0;
    row[1] = c1;
    ctx.mvd[list] = row;
    let mvd_x = rx?;
    let ry = mvd_component(decoder, &mut c0, &mut c1);
    row[0] = c0;
    row[1] = c1;
    ctx.mvd[list] = row;
    let mvd_y = ry?;
    proof {
        assert(row@ =~= old(ctx).mvd[list as int]@.update(0, c0).update(1, c1));
    }
    Ok((mvd_x, mvd_y))
}

/// The four luma bins of the coded block pattern in one context, `i` already
/// read: bin `i` set adds `2^i`.
pub open spec fn cbp_luma_bins(s: Seq<u8>, e: Engine, c: CabacContext, i: int, acc: int) -> Option<(int, Engine, CabacContext)>
    decreases 4 - i,
{
    if i >= 4 {
        Some((acc, e, c))
    } else {
        match decision(s, e, c) {
            None => None,
            Some((b, e2, c2)) => cbp_luma_bins(s, e2, c2, i + 1, if b == 1 { acc + pow2(i as nat) } else { acc }),
        }
    }
}

/// The coded block pattern with CABAC: four luma bins in context 0, then a
/// truncated unary chroma value (at most 2) in context 1, shifted to bits 4 and 5.
pub open spec fn cbp_cabac(s: Seq<u8>, e: Engine, cc: Seq<CabacContext>) -> Option<(int, Engine, Seq<CabacContext>)> {
    match cbp_luma_bins(s, e, cc[0], 0, 0) {
        None => None,
        Some((l, e1, c0)) => match unary_run(s, e1, cc[1], 0, 2) {
            None => None,
            Some((ch, e2, c1)) => Some((l + ch * 16, e2, cc.update(0, c0).update(1, c1))),
        },
    }
}

/// Decode the coded block pattern with CABAC.
pub fn decode_cbp_cabac(decoder: &mut CabacDecoder, ctx: &mut CabacMbContext) -> (r: Result<u32>)
    requires
        old(decoder).wf(),
        mb_ctx_ok(*old(ctx)),
    ensures
        final(decoder).bytes() == old(decoder).bytes(),
        match cbp_cabac(old(decoder).bytes(), old(decoder).engine(), old(ctx).coded_block_pattern@) {
            Some((v, e, cc)) => r == Ok::<u32, Error>(v as u32) && final(decoder).engine() == e && final(decoder).wf()
                && final(ctx).coded_block_pattern@ == cc && mb_ctx_ok(*final(ctx))
                && same_except(*final(ctx), *old(ctx), false, false, false, true, false, false),
            None => r is Err,
        },
{
    let ghost s = decoder.bytes();
    let ghost e0 = decoder.engine();
    let ghost cc0 = ctx.coded_block_pattern@;
    let mut cbp: u32 = 0;
    let mut c0 = ctx.coded_block_pattern[0];
    let mut i: u32 = 0;
    proof { lemma2_to64(); }
    while i < 4
        invariant
            decoder.wf(),
            decoder.bytes() == s,
            s == old(decoder).bytes(),
            e0 == old(decoder).engine(),
            cc0 == old(ctx).coded_block_pattern@,
            *ctx == *old(ctx),
            ctx_ok(c0),
            i <= 4,
            cbp < pow2(i as nat),
            cbp_luma_bins(s, e0, cc0[0], 0, 0) == cbp_luma_bins(s, decoder.engine(), c0, i as int, cbp as int),
        decreases 4 - i,
    {
        proof {
            lemma_decision_bit(s, decoder.engine(), c0);
            vstd::bits::lemma_u32_pow2_no_overflow(i as nat);
            vstd::bits::lemma_u32_shl_is_mul(1, i);
            lemma_pow2_unfold((i + 1) as nat);
        }
        let bit = match decoder.decode_decision(&mut c0) {
            Ok(b) => b,
            Err(e) => {
                return Err(e);
            },
        };
        if bit == 1 {
            let m = 1u32 << i;
            assert(cbp | m == cbp + m) by (bit_vector)
                requires m == 1u32 << i, cbp < m, i < 4;
            cbp = cbp | m;
        }
        i += 1;
    }
    let mut c1 = ctx.coded_block_pattern[1];
    proof { lemma_unary_bound(s, decoder.engine(), c1, 0, 2); }
    let res = unary_ctx(decoder, &mut c1, 2);
    ctx.coded_block_pattern[0] = c0;
    ctx.coded_block_pattern[1] = c1;
    let chroma_cbp = res?;
    assert(cbp < 16) by { lemma2_to64(); }
    let shifted = chroma_cbp << 4;
    assert(shifted == chroma_cbp * 16) by (bit_vector)
        requires shifted == chroma_cbp << 4, chroma_cbp <= 2;
    assert(cbp | shifted == cbp + shifted) by (bit_vector)
        requires shifted == chroma_cbp << 4, chroma_cbp <= 2, cbp < 16;
    cbp = cbp | shifted;
    assert(ctx.coded_block_pattern@ =~= cc0.update(0, c0).update(1, c1));
    Ok(cbp)
}

/// The significance map from coefficient `i` of `max`: a significance bin per
/// coefficient in context `min(i, 14)`; a significant one before the last position is
/// followed by a last bin in the same-numbered context, and a set last bin ends the
/// map. The positions found, the engine, and the two context groups.
pub open spec fn sig_map(s: Seq<u8>, e: Engine, sig: Seq<CabacContext>, last: Seq<CabacContext>, i: int, max: int,
    pos: Seq<int>) -> Option<(Seq<int>, Engine, Seq<CabacContext>, Seq<CabacContext>)>
    decreases max - i,
{
    if i >= max {
        Some((pos, e, sig, last))
    } else {
        let ci = if i < 14 { i } else { 14 };
        match decision(s, e, sig[ci]) {
            None => None,
            Some((b, e1, c1)) => {
                let sig1 = sig.update(ci, c1);
                if b == 1 {
                    let pos1 = pos.push(i);
                    if i < max - 1 {
                        match decision(s, e1, last[ci]) {
                            None => None,
                            Some((l, e2, c2)) => {
                                let last1 = last.update(ci, c2);
                                if l == 1 {
                                    Some((pos1, e2, sig1, last1))
                                } else {
                                    sig_map(s, e2, sig1, last1, i + 1, max, pos1)
                                }
                            },
                        }
                    } else {
                        sig_map(s, e1, sig1, last, i + 1, max, pos1)
                    }
                } else {
                    sig_map(s, e1, sig1, last, i + 1, max, pos)
                }
            },
        }
    }
}

/// The levels of the significant coefficients, from the `k`-th position on: a
/// unary magnitude minus one (at most 14) in context `c` and a bypass sign bin each.
pub open spec fn coeff_levels(s: Seq<u8>, e: Engine, c: CabacContext, pos: Seq<int>, k: int, coeffs: Seq<i16>)
    -> Option<(Seq<i16>, Engine, CabacContext)>
    decreases pos.len() - k,
{
    if k >= pos.len() {
        Some((coeffs, e, c))
    } else {
        match unary_run(s, e, c, 0, 14) {
            None => None,
            Some((a, e1, c1)) => match bypass(s, e1) {
                None => None,
                Some((sign, e2)) => {
                    let level = a + 1;
                    coeff_levels(s, e2, c1, pos, k + 1,
                        coeffs.update(pos[k], (if sign == 1 { -level } else { level }) as i16))
                },
            },
        }
    }
}

/// A residual block of `max` coefficients with CABAC: the significance map, then
/// the levels in the first level context. The coefficients, the engine, and the
/// significance, last and level context groups.
pub open spec fn residual_cabac(s: Seq<u8>, e: Engine, sig: Seq<CabacContext>, last: Seq<CabacContext>,
    abs: Seq<CabacContext>, max: int) -> Option<(Seq<i16>, Engine, Seq<CabacContext>, Seq<CabacContext>, Seq<CabacContext>)> {
    match sig_map(s, e, sig, last, 0, max, Seq::empty()) {
        None => None,
        Some((pos, e1, sig1, last1)) => match coeff_levels(s, e1, abs[0], pos, 0, Seq::new(max as nat, |i: int| 0i16)) {
            None => None,
            Some((co, e2, c)) => Some((co, e2, sig1, last1, abs.update(0, c))),
        },
    }
}

/// The significance map: every position found lies before `max`.
proof fn lemma_sig_map(s: Seq<u8>, e: Engine, sig: Seq<CabacContext>, last: Seq<CabacContext>, i: int, max: int, pos: Seq<int>)
    requires
        0 <= i,
        forall|k: int| 0 <= k < pos.len() ==> 0 <= #[trigger] pos[k] < max,
    ensures
        sig_map(s, e, sig, last, i, max, pos) matches Some((p, e2, s2, l2)) ==>
            forall|k: int| 0 <= k < p.len() ==> 0 <= #[trigger] p[k] < max,
    decreases max - i,
{
    if i < max {
        let ci = if i < 14 { i } else { 14 };
        if let Some((b, e1, c1)) = decision(s, e, sig[ci]) {
            let sig1 = sig.update(ci, c1);
            if b == 1 {
                let pos1 = pos.push(i);
                assert forall|k: int| 0 <= k < pos1.len() implies 0 <= #[trigger] pos1[k] < max by {
                    if k < pos.len() { assert(pos1[k] == pos[k]); }
                }
                if i < max - 1 {
                    if let Some((l, e2, c2)) = decision(s, e1, last[ci]) {
                        if l != 1 {
                            lemma_sig_map(s, e2, sig1, last.update(ci, c2), i + 1, max, pos1);
                        }
                    }
                } else {
                    lemma_sig_map(s, e1, sig1, last, i + 1, max, pos1);
                }
            } else {
                lemma_sig_map(s, e1, sig1, last, i + 1, max, pos);
            }
        }
    }
}

/// Decode the significance map of a residual block.
fn decode_sig_map(decoder: &mut CabacDecoder, ctx: &mut CabacMbContext, max_num_coeff: usize) -> (r: Result<Vec<usize>>)
    requires
        old(decoder).wf(),
        mb_ctx_ok(*old(ctx)),
    ensures
        final(decoder).bytes() == old(decoder).bytes(),
        match sig_map(old(decoder).bytes(), old(decoder).engine(), old(ctx).significant_coeff_flag@,
            old(ctx).last_significant_coeff_flag@, 0, max_num_coeff as int, Seq::empty()) {
            Some((p, e, sig, last)) => r matches Ok(v) && v@.map_values(|x: usize| x as int) == p
                && final(decoder).engine() == e && final(decoder).wf()
                && final(ctx).significant_coeff_flag@ == sig && final(ctx).last_significant_coeff_flag@ == last
                && mb_ctx_ok(*final(ctx))
                && final(ctx).coeff_abs_level_minus1 == old(ctx).coeff_abs_level_minus1
                && same_except(*final(ctx), *old(ctx), false, false, false, false, false, true),
            None => r is Err,
        },
{
    let ghost s = decoder.bytes();
    let ghost target = sig_map(s, decoder.engine(), ctx.significant_coeff_flag@, ctx.last_significant_coeff_flag@,
        0, max_num_coeff as int, Seq::empty());
    let mut num_coeff: usize = 0;
    let mut coeff_positions: Vec<usize> = Vec::new();
    assert(coeff_positions@.map_values(|x: usize| x as int) =~= Seq::<int>::empty());
    let mut i: usize = 0;
    while i < max_num_coeff
        invariant_except_break
            decoder.wf(),
            decoder.bytes() == s,
            s == old(decoder).bytes(),
            target == sig_map(old(decoder).bytes(), old(decoder).engine(), old(ctx).significant_coeff_flag@,
                old(ctx).last_significant_coeff_flag@, 0, max_num_coeff as int, Seq::empty()),
            i <= max_num_coeff,
            num_coeff == coeff_positions@.len(),
            num_coeff <= i,
            mb_ctx_ok(*ctx),
            ctx.coeff_abs_level_minus1 == old(ctx).coeff_abs_level_minus1,
            same_except(*ctx, *old(ctx), false, false, false, false, false, true),
            target == sig_map(s, decoder.engine(), ctx.significant_coeff_flag@, ctx.last_significant_coeff_flag@,
                i as int, max_num_coeff as int, coeff_positions@.map_values(|x: usize| x as int)),
        ensures
            decoder.wf(),
            decoder.bytes() == s,
            mb_ctx_ok(*ctx),
            ctx.coeff_abs_level_minus1 == old(ctx).coeff_abs_level_minus1,
            same_except(*ctx, *old(ctx), false, false, false, false, false, true),
            target == Some((coeff_positions@.map_values(|x: usize| x as int), decoder.engine(),
                ctx.significant_coeff_flag@, ctx.last_significant_coeff_flag@)),
        decreases max_num_coeff - i,
    {
        let ci = if i < 14 { i } else { 14 };
        let mut c = ctx.significant_coeff_flag[ci];
        proof { lemma_decision_bit(s, decoder.engine(), c); }
        let res = decoder.decode_decision(&mut c);
        ctx.significant_coeff_flag[ci] = c;
        let sig_coeff = match res {
            Ok(b) => b,
            Err(e) => {
                return Err(e);
            },
        };
        if sig_coeff == 1 {
            let ghost before = coeff_positions@;
            coeff_positions.push(i);
            num_coeff += 1;
            proof {
                assert(coeff_positions@.map_values(|x: usize| x as int)
                    =~= before.map_values(|x: usize| x as int).push(i as int));
            }
            if i < max_num_coeff - 1 {
                let mut c2 = ctx.last_significant_coeff_flag[ci];
                proof { lemma_decision_bit(s, decoder.engine(), c2); }
                let res = decoder.decode_decision(&mut c2);
                ctx.last_significant_coeff_flag[ci] = c2;
                let last = match res {
                    Ok(b) => b,
                    Err(e) => {
                        return Err(e);
                    },
                };
                if last == 1 {
                    break;
                }
            }
        }
        i += 1;
    }
    Ok(coeff_positions)
}

/// Decode the levels of the significant coefficients into a zero block.
fn decode_levels(decoder: &mut CabacDecoder, c: &mut CabacContext, positions: &Vec<usize>, max_num_coeff: usize)
    -> (r: Result<Vec<i16>>)
    requires
        old(decoder).wf(),
        ctx_ok(*old(c)),
        forall|k: int| 0 <= k < positions@.len() ==> #[trigger] positions@[k] < max_num_coeff,
    ensures
        final(decoder).bytes() == old(decoder).bytes(),
        match coeff_levels(old(decoder).bytes(), old(decoder).engine(), *old(c), positions@.map_values(|x: usize| x as int),
            0, Seq::new(max_num_coeff as nat, |i: int| 0i16)) {
            Some((co, e, c2)) => r matches Ok(v) && v@ == co && final(decoder).engine() == e && final(decoder).wf()
                && *final(c) == c2 && ctx_ok(c2),
            None => r is Err,
        },
{
    let ghost s = decoder.bytes();
    let ghost pos = positions@.map_values(|x: usize| x as int);
    let ghost target = coeff_levels(s, decoder.engine(), *c, pos, 0, Seq::new(max_num_coeff as nat, |i: int| 0i16));
    let mut coeffs: Vec<i16> = vec![0i16; max_num_coeff];
    assert(coeffs@ =~= Seq::new(max_num_coeff as nat, |i: int| 0i16));
    let mut k: usize = 0;
    while k < positions.len()
        invariant
            decoder.wf(),
            decoder.bytes() == s,
            s == old(decoder).bytes(),
            pos == positions@.map_values(|x: usize| x as int),
            target == coeff_levels(old(decoder).bytes(), old(decoder).engine(), *old(c), pos, 0,
                Seq::new(max_num_coeff as nat, |i: int| 0i16)),
            forall|j: int| 0 <= j < positions@.len() ==> #[trigger] positions@[j] < max_num_coeff,
            ctx_ok(*c),
            k <= positions@.len(),
            coeffs@.len() == max_num_coeff,
            target == coeff_levels(s, decoder.engine(), *c, pos, k as int, coeffs@),
        decreases positions@.len() - k,
    {
        proof { lemma_unary_bound(s, decoder.engine(), *c, 0, 14); }
        let abs_level_minus1 = unary_ctx(decoder, c, 14)?;
        let sign = decoder.decode_bypass()?;
        let level = (abs_level_minus1 + 1) as i16;
        let p = positions[k];
        coeffs.set(p, if sign == 1 { -level } else { level });
        k += 1;
    }
    Ok(coeffs)
}

/// Decode a residual block of `max_num_coeff` coefficients with CABAC.
pub fn decode_residual_block_cabac(decoder: &mut CabacDecoder, ctx: &mut CabacMbContext, max_num_coeff: usize)
    -> (r: Result<Vec<i16>>)
    requires
        old(decoder).wf(),
        mb_ctx_ok(*old(ctx)),
    ensures
        final(decoder).bytes() == old(decoder).bytes(),
        match residual_cabac(old(decoder).bytes(), old(decoder).engine(), old(ctx).significant_coeff_flag@,
            old(ctx).last_significant_coeff_flag@, old(ctx).coeff_abs_level_minus1@, max_num_coeff as int) {
            Some((co, e, sig, last, abs)) => r matches Ok(v) && v@ == co && final(decoder).engine() == e
                && final(decoder).wf()
                && final(ctx).significant_coeff_flag@ == sig && final(ctx).last_significant_coeff_flag@ == last
                && final(ctx).coeff_abs_level_minus1@ == abs && mb_ctx_ok(*final(ctx))
                && same_except(*final(ctx), *old(ctx), false, false, false, false, false, true),
            None => r is Err,
        },
{
    let ghost s = decoder.bytes();
    let ghost e0 = decoder.engine();
    proof {
        lemma_sig_map(s, e0, ctx.significant_coeff_flag@, ctx.last_significant_coeff_flag@, 0,
            max_num_coeff as int, Seq::empty());
    }
    let coeff_positions = decode_sig_map(decoder, ctx, max_num_coeff)?;
    proof {
        assert forall|k: int| 0 <= k < coeff_positions@.len() implies #[trigger] coeff_positions@[k] < max_num_coeff by {
            assert(coeff_positions@.map_values(|x: usize| x as int)[k] == coeff_positions@[k] as int);
        }
    }
    let mut c = ctx.coeff_abs_level_minus1[0];
    let res = decode_levels(decoder, &mut c, &coeff_positions, max_num_coeff);
    ctx.coeff_abs_level_minus1[0] = c;
    let coeffs = res?;
    Ok(coeffs)
}

/// Decode an 8x8 residual block (64 coefficients) with CABAC.
pub fn decode_residual_block_8x8_cabac(decoder: &mut CabacDecoder, ctx: &mut CabacMbContext) -> (r: Result<Vec<i16>>)
    requires
        old(decoder).wf(),
        mb_ctx_ok(*old(ctx)),
    ensures
        final(decoder).bytes() == old(decoder).bytes(),
        match residual_cabac(old(decoder).bytes(), old(decoder).engine(), old(ctx).significant_coeff_flag@,
            old(ctx).last_significant_coeff_flag@, old(ctx).coeff_abs_level_minus1@, 64) {
            Some((co, e, sig, last, abs)) => r matches Ok(v) && v@ == co && final(decoder).engine() == e
                && final(decoder).wf()
                && final(ctx).significant_coeff_flag@ == sig && final(ctx).last_significant_coeff_flag@ == last
                && final(ctx).coeff_abs_level_minus1@ == abs && mb_ctx_ok(*final(ctx))
                && same_except(*final(ctx), *old(ctx), false, false, false, false, false, true),
            None => r is Err,
        },
{
    decode_residual_block_cabac(decoder, ctx, 64)
}

} // verus!
