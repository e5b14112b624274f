//! Picture order count: the display order of decoded pictures, by the three
//! methods an SPS can select.
use vstd::prelude::*;
use vstd::arithmetic::power2::pow2;
use super::arith::shl1_i32;
use crate::error::{Error, Result};

verus! {

/// Picture order count type from the SPS.
#[derive(Debug, Clone, Copy, PartialEq, Eq, Structural)]
pub enum PocType {
    Type0,
    Type1,
    Type2,
}

impl PocType {
    /// The POC type with the given value; only 0, 1 and 2 exist.
    pub fn from_u8(value: u8) -> (r: Result<PocType>)
        ensures
            value == 0 <==> r matches Ok(PocType::Type0),
            value == 1 <==> r matches Ok(PocType::Type1),
            value == 2 <==> r matches Ok(PocType::Type2),
            value > 2 <==> (r matches Err(e) && e.is_invalid()),
    {
        match value {
            0 => Ok(PocType::Type0),
            1 => Ok(PocType::Type1),
            2 => Ok(PocType::Type2),
            _ => Err(Error::invalid("POC", "Invalid POC type")),
        }
    }
}

/// What the POC computation remembers from the previous picture.
#[derive(Debug, Clone, Copy)]
pub struct PocState {
    pub poc_type: PocType,
    pub log2_max_poc_lsb: u8,
    pub prev_poc_msb: i32,
    pub prev_poc_lsb: i32,
    pub prev_frame_num: u32,
    pub prev_frame_num_offset: i32,
    pub prev_has_mmco5: bool,
}

/// `x` lies in the range of `i32`.
pub open spec fn fits_i32(x: int) -> bool {
    i32::MIN <= x <= i32::MAX
}

/// The same state with every "previous picture" field cleared.
pub open spec fn reset_state(s: PocState) -> PocState {
    PocState {
        prev_poc_msb: 0,
        prev_poc_lsb: 0,
        prev_frame_num: 0,
        prev_frame_num_offset: 0,
        prev_has_mmco5: false,
        ..s
    }
}

/// `MaxPicOrderCntLsb` of the state.
pub open spec fn max_poc_lsb(s: PocState) -> int {
    pow2(s.log2_max_poc_lsb as nat) as int
}

/// The POC MSB of a type-0 picture with LSB `l`: a wrap forward adds
/// `MaxPicOrderCntLsb`, a jump backward subtracts it.
pub open spec fn type0_msb(s: PocState, l: int) -> int {
    let max = max_poc_lsb(s);
    if l < s.prev_poc_lsb && s.prev_poc_lsb - l >= max / 2 {
        s.prev_poc_msb + max
    } else if l > s.prev_poc_lsb && l - s.prev_poc_lsb > max / 2 {
        s.prev_poc_msb - max
    } else {
        s.prev_poc_msb as int
    }
}

/// Every intermediate value of the type-0 computation fits in `i32`.
pub open spec fn type0_fits(s: PocState, l: int) -> bool {
    &&& s.log2_max_poc_lsb <= 30
    &&& (l < s.prev_poc_lsb ==> fits_i32(s.prev_poc_lsb - l))
    &&& (l > s.prev_poc_lsb ==> fits_i32(l - s.prev_poc_lsb))
    &&& fits_i32(type0_msb(s, l))
    &&& fits_i32(type0_msb(s, l) + l)
}

/// The FrameNumOffset of a picture: it grows by `MaxFrameNum` when `frame_num`
/// wrapped around.
pub open spec fn frame_num_offset(s: PocState, frame_num: u32, max_frame_num: u32) -> int {
    if s.prev_frame_num > frame_num {
        s.prev_frame_num_offset + (max_frame_num as i32)
    } else {
        s.prev_frame_num_offset as int
    }
}

/// The type-1 and type-2 POC: twice the absolute frame number.
pub open spec fn frame_num_poc(s: PocState, frame_num: u32, max_frame_num: u32) -> int {
    2 * (frame_num_offset(s, frame_num, max_frame_num) + (frame_num as i32))
}

/// Every intermediate value of the type-1/type-2 computation fits in `i32`.
pub open spec fn frame_num_fits(s: PocState, frame_num: u32, max_frame_num: u32) -> bool {
    &&& fits_i32(frame_num_offset(s, frame_num, max_frame_num))
    &&& fits_i32(frame_num_offset(s, frame_num, max_frame_num) + (frame_num as i32))
    &&& fits_i32(frame_num_poc(s, frame_num, max_frame_num))
}

/// The inputs on which the POC computation runs without overflow.
pub open spec fn poc_inputs_ok(s: PocState, frame_num: u32, lsb: Option<u32>, is_idr: bool, max_frame_num: u32) -> bool {
    is_idr || match s.poc_type {
        PocType::Type0 => match lsb {
            Some(l) => type0_fits(s, (l as i32) as int),
            None => true,
        },
        _ => frame_num_fits(s, frame_num, max_frame_num),
    }
}

impl PocState {
    /// A fresh state; `log2_max_poc_lsb` is the SPS value plus 4.
    pub fn new(poc_type: PocType, log2_max_poc_lsb_minus4: u8) -> (s: PocState)
        requires
            log2_max_poc_lsb_minus4 <= 251,
        ensures
            s == (PocState {
                poc_type,
                log2_max_poc_lsb: (log2_max_poc_lsb_minus4 + 4) as u8,
                prev_poc_msb: 0,
                prev_poc_lsb: 0,
                prev_frame_num: 0,
                prev_frame_num_offset: 0,
                prev_has_mmco5: false,
            }),
    {
        PocState {
            poc_type,
            log2_max_poc_lsb: log2_max_poc_lsb_minus4 + 4,
            prev_poc_msb: 0,
            prev_poc_lsb: 0,
            prev_frame_num: 0,
            prev_frame_num_offset: 0,
            prev_has_mmco5: false,
        }
    }

    /// Forget the previous picture, as after an IDR picture.
    pub fn reset(&mut self)
        ensures
            *final(self) == reset_state(*old(self)),
    {
        self.prev_poc_msb = 0;
        self.prev_poc_lsb = 0;
        self.prev_frame_num = 0;
        self.prev_frame_num_offset = 0;
        self.prev_has_mmco5 = false;
    }
}

/// The POC of a picture, as (top, bottom) field order counts, which are equal for
/// frames. An IDR picture has POC 0 and clears the state; type 0 needs the
/// `pic_order_cnt_lsb` of the slice header and fails without it.
pub fn calculate_poc(state: &mut PocState, frame_num: u32, pic_order_cnt_lsb: Option<u32>, is_idr: bool, max_frame_num: u32) -> (r: Result<(i32, i32)>)
    requires
        poc_inputs_ok(*old(state), frame_num, pic_order_cnt_lsb, is_idr, max_frame_num),
    ensures
        is_idr ==> (r matches Ok(p) && p == (0i32, 0i32) && *final(state) == reset_state(*old(state))),
        !is_idr && old(state).poc_type == PocType::Type0 ==> match pic_order_cnt_lsb {
            None => r matches Err(e) && e.is_invalid() && *final(state) == *old(state),
            Some(lsb) => {
                let l = (lsb as i32) as int;
                let poc = type0_msb(*old(state), l) + l;
                &&& r matches Ok(p) && p.0 == poc && p.1 == poc
                &&& *final(state) == (if old(state).prev_has_mmco5 { *old(state) } else {
                    PocState { prev_poc_msb: type0_msb(*old(state), l) as i32, prev_poc_lsb: l as i32, ..*old(state) }
                })
            },
        },
        !is_idr && old(state).poc_type != PocType::Type0 ==> {
            let poc = frame_num_poc(*old(state), frame_num, max_frame_num);
            &&& r matches Ok(p) && p.0 == poc && p.1 == poc
            &&& *final(state) == (PocState {
                prev_frame_num: frame_num,
                prev_frame_num_offset: frame_num_offset(*old(state), frame_num, max_frame_num) as i32,
                ..*old(state)
            })
        },
{
    if is_idr {
        state.reset();
        return Ok((0, 0));
    }
    match state.poc_type {
        PocType::Type0 => calculate_poc_type0(state, pic_order_cnt_lsb, max_frame_num),
        PocType::Type1 => calculate_poc_frame_num(state, frame_num, max_frame_num),
        PocType::Type2 => calculate_poc_frame_num(state, frame_num, max_frame_num),
    }
}

fn calculate_poc_type0(state: &mut PocState, pic_order_cnt_lsb: Option<u32>, _max_frame_num: u32) -> (r: Result<(i32, i32)>)
    requires
        match pic_order_cnt_lsb {
            Some(l) => type0_fits(*old(state), (l as i32) as int),
            None => true,
        },
    ensures
        match pic_order_cnt_lsb {
            None => r matches Err(e) && e.is_invalid() && *final(state) == *old(state),
            Some(lsb) => {
                let l = (lsb as i32) as int;
                let poc = type0_msb(*old(state), l) + l;
                &&& r matches Ok(p) && p.0 == poc && p.1 == poc
                &&& *final(state) == (if old(state).prev_has_mmco5 { *old(state) } else {
                    PocState { prev_poc_msb: type0_msb(*old(state), l) as i32, prev_poc_lsb: l as i32, ..*old(state) }
                })
            },
        },
{
    let lsb = match pic_order_cnt_lsb {
        Some(v) => v as i32,
        None => {
            return Err(Error::invalid("POC", "pic_order_cnt_lsb required for POC type 0"));
        },
    };
    let max_poc_lsb = shl1_i32(state.log2_max_poc_lsb as u32);
    let poc_msb = if lsb < state.prev_poc_lsb && (state.prev_poc_lsb - lsb) >= (max_poc_lsb / 2) {
        state.prev_poc_msb + max_poc_lsb
    } else if lsb > state.prev_poc_lsb && (lsb - state.prev_poc_lsb) > (max_poc_lsb / 2) {
        state.prev_poc_msb - max_poc_lsb
    } else {
        state.prev_poc_msb
    };
    let top = poc_msb + lsb;
    if !state.prev_has_mmco5 {
        state.prev_poc_msb = poc_msb;
        state.prev_poc_lsb = lsb;
    }
    Ok((top, top))
}

fn calculate_poc_frame_num(state: &mut PocState, frame_num: u32, max_frame_num: u32) -> (r: Result<(i32, i32)>)
    requires
        frame_num_fits(*old(state), frame_num, max_frame_num),
    ensures
        ({
            let poc = frame_num_poc(*old(state), frame_num, max_frame_num);
            &&& r matches Ok(p) && p.0 == poc && p.1 == poc
            &&& *final(state) == (PocState {
                prev_frame_num: frame_num,
                prev_frame_num_offset: frame_num_offset(*old(state), frame_num, max_frame_num) as i32,
                ..*old(state)
            })
        }),
{
    let frame_num_offset = if state.prev_frame_num > frame_num {
        state.prev_frame_num_offset + max_frame_num as i32
    } else {
        state.prev_frame_num_offset
    };
    let abs_frame_num = frame_num_offset + frame_num as i32;
    let poc = abs_frame_num * 2;
    state.prev_frame_num = frame_num;
    state.prev_frame_num_offset = frame_num_offset;
    Ok((poc, poc))
}

/// The POC of a frame: the smaller of its two field order counts.
pub fn get_frame_poc(top_poc: i32, bottom_poc: i32) -> (r: i32)
    ensures
        r == (if top_poc <= bottom_poc { top_poc } else { bottom_poc }),
{
    if top_poc <= bottom_poc { top_poc } else { bottom_poc }
}

/// Type-0 picture order counts follow the LSB around its wrap: for LSB values below
/// `MaxPicOrderCntLsb`, the new count (MSB plus LSB) differs from the previous one by
/// the LSB difference taken modulo `MaxPicOrderCntLsb` into `(-max / 2, max / 2]`,
/// so a small step past the wrap point moves the count forward, not back.
pub proof fn lemma_type0_poc_step(s: PocState, l: int)
    requires
        0 <= l < max_poc_lsb(s),
        0 <= s.prev_poc_lsb < max_poc_lsb(s),
    ensures ({
        let max = max_poc_lsb(s);
        let diff = type0_msb(s, l) + l - (s.prev_poc_msb + s.prev_poc_lsb);
        &&& -(max / 2) < diff <= max / 2 || (max == 1 && diff == 0)
        &&& diff == l - s.prev_poc_lsb || diff == l - s.prev_poc_lsb + max || diff == l - s.prev_poc_lsb - max
    }),
{
    let k = s.log2_max_poc_lsb as nat;
    if k >= 1 {
        vstd::arithmetic::power2::lemma_pow2_unfold(k);
        assert(max_poc_lsb(s) % 2 == 0);
    } else {
        vstd::arithmetic::power2::lemma2_to64();
        assert(max_poc_lsb(s) == 1);
    }
}

} // verus!
