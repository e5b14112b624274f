//! Sequence and picture parameter sets.
use vstd::prelude::*;
use crate::error::{Error, Result};
use super::nal::{BitReader, rd_bits, rd_ue, rd_se, lemma_rd_bounds};
use super::{Profile};

verus! {

/// Sequence parameter set.
#[derive(Debug, Clone, Copy, PartialEq, Eq, Structural)]
pub struct Sps {
    pub profile_idc: Profile,
    pub level_idc: u8,
    pub seq_parameter_set_id: u32,
    pub chroma_format_idc: u32,
    pub bit_depth_luma: u8,
    pub bit_depth_chroma: u8,
    pub log2_max_frame_num: u8,
    pub pic_order_cnt_type: u32,
    pub log2_max_pic_order_cnt_lsb: u8,
    pub num_ref_frames: u32,
    pub gaps_in_frame_num_allowed: bool,
    pub pic_width_in_mbs: u32,
    pub pic_height_in_map_units: u32,
    pub frame_mbs_only_flag: bool,
    pub mb_adaptive_frame_field_flag: bool,
    pub direct_8x8_inference_flag: bool,
    pub frame_cropping_flag: bool,
    pub frame_crop_left_offset: u32,
    pub frame_crop_right_offset: u32,
    pub frame_crop_top_offset: u32,
    pub frame_crop_bottom_offset: u32,
}

/// The profile of a `profile_idc` value.
pub open spec fn spec_profile(v: nat) -> Profile {
    if v == 66 { Profile::Baseline } else if v == 77 { Profile::Main } else if v == 100 { Profile::High } else { Profile::Unknown }
}

/// `v + 4` (or `v + 8`) stored in a byte field, modulo 256 as the field width dictates.
pub open spec fn byte_plus(v: nat, k: nat) -> u8 {
    ((v + k) % 256) as u8
}

/// Skipping a scaling list of `size` entries from entry `j`, where `last` and `next`
/// are the last and next scale values modulo 256; the position after the list.
pub open spec fn skip_list_from(s: Seq<u8>, p: int, size: nat, j: nat, last: int, next: int) -> Option<int>
    decreases size - j,
{
    if j >= size {
        Some(p)
    } else if next != 0 {
        match rd_se(s, p) {
            None => None,
            Some((d, q)) => {
                let nx = (last + d) % 256;
                skip_list_from(s, q, size, j + 1, if nx == 0 { last } else { nx }, nx)
            },
        }
    } else {
        skip_list_from(s, p, size, j + 1, last, next)
    }
}

/// Skipping the eight optional 16-entry scaling lists of an SPS, from list `i`.
pub open spec fn skip_lists_from(s: Seq<u8>, p: int, i: nat) -> Option<int>
    decreases 8 - i,
{
    if i >= 8 {
        Some(p)
    } else {
        match rd_bits(s, p, 1) {
            None => None,
            Some((flag, q)) => if flag == 1 {
                match skip_list_from(s, q, 16, 0, 8, 8) {
                    None => None,
                    Some(r) => skip_lists_from(s, r, i + 1),
                }
            } else {
                skip_lists_from(s, q, i + 1)
            },
        }
    }
}

/// The High profile fields: chroma format, luma and chroma bit depths, and the
/// position after the optional scaling matrix.
pub open spec fn sps_high_fields(s: Seq<u8>, p: int) -> Option<(u32, u8, u8, int)> {
    match rd_ue(s, p) {
        None => None,
        Some((chroma, p1)) => {
            let p2_opt = if chroma == 3 { match rd_bits(s, p1, 1) { Some((_, q)) => Some(q), None => None } } else { Some(p1) };
            match p2_opt {
                None => None,
                Some(p2) => match rd_ue(s, p2) {
                    None => None,
                    Some((bdl, p3)) => match rd_ue(s, p3) {
                        None => None,
                        Some((bdc, p4)) => match rd_bits(s, p4, 1) {
                            None => None,
                            Some((_, p5)) => match rd_bits(s, p5, 1) {
                                None => None,
                                Some((flag, p6)) => {
                                    let p7_opt = if flag == 1 { skip_lists_from(s, p6, 0) } else { Some(p6) };
                                    match p7_opt {
                                        None => None,
                                        Some(p7) => Some((chroma as u32, byte_plus(bdl, 8), byte_plus(bdc, 8), p7)),
                                    }
                                },
                            },
                        },
                    },
                },
            }
        },
    }
}

/// Skipping `count - j` se(v) codes.
pub open spec fn skip_se_from(s: Seq<u8>, p: int, count: nat, j: nat) -> Option<int>
    decreases count - j,
{
    if j >= count {
        Some(p)
    } else {
        match rd_se(s, p) {
            None => None,
            Some((_, q)) => skip_se_from(s, q, count, j + 1),
        }
    }
}

/// The picture order count fields: `log2_max_pic_order_cnt_lsb` (0 unless the type is 0)
/// and the position after them.
pub open spec fn sps_poc_fields(s: Seq<u8>, p: int, poc_type: nat) -> Option<(u8, int)> {
    if poc_type == 0 {
        match rd_ue(s, p) {
            None => None,
            Some((v, q)) => Some((byte_plus(v, 4), q)),
        }
    } else if poc_type == 1 {
        match rd_bits(s, p, 1) {
            None => None,
            Some((_, p1)) => match rd_se(s, p1) {
                None => None,
                Some((_, p2)) => match rd_se(s, p2) {
                    None => None,
                    Some((_, p3)) => match rd_ue(s, p3) {
                        None => None,
                        Some((n, p4)) => match skip_se_from(s, p4, n, 0) {
                            None => None,
                            Some(p5) => Some((0u8, p5)),
                        },
                    },
                },
            },
        }
    } else {
        Some((0u8, p))
    }
}

/// The frame cropping offsets (zero when the flag is clear) and the position after them.
pub open spec fn sps_crop_fields(s: Seq<u8>, p: int, flag: bool) -> Option<(u32, u32, u32, u32, int)> {
    if !flag {
        Some((0, 0, 0, 0, p))
    } else {
        match rd_ue(s, p) {
            None => None,
            Some((l, p1)) => match rd_ue(s, p1) {
                None => None,
                Some((r, p2)) => match rd_ue(s, p2) {
                    None => None,
                    Some((t, p3)) => match rd_ue(s, p3) {
                        None => None,
                        Some((b, p4)) => Some((l as u32, r as u32, t as u32, b as u32, p4)),
                    },
                },
            },
        }
    }
}

/// The SPS fields that follow the profile, level and identifier, read from bit `p`.
pub open spec fn sps_rest(s: Seq<u8>, p: int, profile: Profile, level: u8, id: u32, chroma: u32, bdl: u8, bdc: u8) -> Option<Sps> {
    match rd_ue(s, p) {
        None => None,
        Some((fnum, p1)) => match rd_ue(s, p1) {
            None => None,
            Some((poc_type, p2)) => match sps_poc_fields(s, p2, poc_type) {
                None => None,
                Some((poc_lsb, p3)) => match rd_ue(s, p3) {
                    None => None,
                    Some((nref, p4)) => match rd_bits(s, p4, 1) {
                        None => None,
                        Some((gaps, p5)) => match rd_ue(s, p5) {
                            None => None,
                            Some((w, p6)) => match rd_ue(s, p6) {
                                None => None,
                                Some((h, p7)) => match rd_bits(s, p7, 1) {
                                    None => None,
                                    Some((fmo, p8)) => {
                                        let mbaff_opt = if fmo == 1 { Some((0nat, p8)) } else { rd_bits(s, p8, 1) };
                                        match mbaff_opt {
                                            None => None,
                                            Some((mbaff, p9)) => match rd_bits(s, p9, 1) {
                                                None => None,
                                                Some((d8, p10)) => match rd_bits(s, p10, 1) {
                                                    None => None,
                                                    Some((crop, p11)) => match sps_crop_fields(s, p11, crop == 1) {
                                                        None => None,
                                                        Some((cl, cr, ct, cb, _)) => Some(Sps {
                                                            profile_idc: profile,
                                                            level_idc: level,
                                                            seq_parameter_set_id: id,
                                                            chroma_format_idc: chroma,
                                                            bit_depth_luma: bdl,
                                                            bit_depth_chroma: bdc,
                                                            log2_max_frame_num: byte_plus(fnum, 4),
                                                            pic_order_cnt_type: poc_type as u32,
                                                            log2_max_pic_order_cnt_lsb: poc_lsb,
                                                            num_ref_frames: nref as u32,
                                                            gaps_in_frame_num_allowed: gaps == 1,
                                                            pic_width_in_mbs: (w + 1) as u32,
                                                            pic_height_in_map_units: (h + 1) as u32,
                                                            frame_mbs_only_flag: fmo == 1,
                                                            mb_adaptive_frame_field_flag: mbaff == 1,
                                                            direct_8x8_inference_flag: d8 == 1,
                                                            frame_cropping_flag: crop == 1,
                                                            frame_crop_left_offset: cl,
                                                            frame_crop_right_offset: cr,
                                                            frame_crop_top_offset: ct,
                                                            frame_crop_bottom_offset: cb,
                                                        }),
                                                    },
                                                },
                                            },
                                        }
                                    },
                                },
                            },
                        },
                    },
                },
            },
        },
    }
}

/// The SPS that an RBSP encodes, or `None` when the data ends early, a code is
/// malformed, or `seq_parameter_set_id` exceeds 31.
pub open spec fn spec_sps(s: Seq<u8>) -> Option<Sps> {
    match rd_bits(s, 0, 8) {
        None => None,
        Some((prof, p1)) => match rd_bits(s, p1, 8) {
            None => None,
            Some((_, p2)) => match rd_bits(s, p2, 8) {
                None => None,
                Some((level, p3)) => match rd_ue(s, p3) {
                    None => None,
                    Some((id, p4)) => if id > 31 {
                        None
                    } else if spec_profile(prof) == Profile::High {
                        match sps_high_fields(s, p4) {
                            None => None,
                            Some((chroma, bdl, bdc, p5)) => sps_rest(s, p5, Profile::High, level as u8, id as u32, chroma, bdl, bdc),
                        }
                    } else {
                        sps_rest(s, p4, spec_profile(prof), level as u8, id as u32, 1, 8, 8)
                    },
                },
            },
        },
    }
}

/// Width in pixels: 16 per macroblock, less the horizontal crop (2 per unit for 4:2:0).
pub open spec fn spec_sps_width(sps: Sps) -> int {
    let w = sps.pic_width_in_mbs * 16;
    if sps.frame_cropping_flag {
        let unit = if sps.chroma_format_idc == 1 { 2int } else { 1int };
        w - (sps.frame_crop_left_offset + sps.frame_crop_right_offset) * unit
    } else {
        w
    }
}

/// Height in pixels: 16 per map unit (twice as many for field coding), less the crop.
pub open spec fn spec_sps_height(sps: Sps) -> int {
    let hm = if sps.frame_mbs_only_flag { sps.pic_height_in_map_units as int } else { sps.pic_height_in_map_units * 2 };
    let h = hm * 16;
    if sps.frame_cropping_flag {
        let unit = if sps.chroma_format_idc == 1 { 2int } else { 1int };
        let mult = if sps.frame_mbs_only_flag { 1int } else { 2int };
        h - (sps.frame_crop_top_offset + sps.frame_crop_bottom_offset) * unit * mult
    } else {
        h
    }
}

/// The products `width` computes fit `u32` and the width is not negative.
pub open spec fn sps_width_in_range(sps: Sps) -> bool {
    let unit = if sps.chroma_format_idc == 1 { 2int } else { 1int };
    &&& sps.pic_width_in_mbs * 16 <= u32::MAX
    &&& sps.frame_cropping_flag ==> (sps.frame_crop_left_offset + sps.frame_crop_right_offset) * unit <= u32::MAX
    &&& spec_sps_width(sps) >= 0
}

/// The products `height` computes fit `u32` and the height is not negative.
pub open spec fn sps_height_in_range(sps: Sps) -> bool {
    let unit = if sps.chroma_format_idc == 1 { 2int } else { 1int };
    let mult = if sps.frame_mbs_only_flag { 1int } else { 2int };
    &&& sps.pic_height_in_map_units * mult * 16 <= u32::MAX
    &&& sps.frame_cropping_flag ==> (sps.frame_crop_top_offset + sps.frame_crop_bottom_offset) * unit * mult <= u32::MAX
    &&& spec_sps_height(sps) >= 0
}

/// The arithmetic of `width` and `height` stays within range for this SPS.
pub open spec fn sps_dims_in_range(sps: Sps) -> bool {
    sps_width_in_range(sps) && sps_height_in_range(sps)
}

/// Read one bit as a `u8` via the reader.
fn read_flag(br: &mut BitReader) -> (r: Result<u32>)
    requires
        old(br).wf(),
    ensures
        final(br).wf(),
        final(br).bytes() == old(br).bytes(),
        match rd_bits(old(br).bytes(), old(br).pos(), 1) {
            Some((v, q)) => r matches Ok(x) && x == v && final(br).pos() == q,
            None => r is Err,
        },
{
    proof { old(br).lemma_pos(); }
    br.read_bits(1)
}

/// A value read as eight bits is below 256.
proof fn lemma_bits8(s: Seq<u8>, p: int)
    ensures
        rd_bits(s, p, 8) matches Some((v, _)) ==> v < 256,
{
    super::nal::lemma_bits_value_bound(s, p, 8);
    vstd::arithmetic::power2::lemma2_to64();
}

/// `(v + k) % 256` as a byte, computed without overflow.
fn add_mod_byte(v: u32, k: u32) -> (r: u8)
    requires
        k < 256,
    ensures
        r == byte_plus(v as nat, k as nat),
{
    let m = v % 256;
    assert((v as nat + k as nat) % 256 == (m as nat + k as nat) % 256) by (nonlinear_arith)
        requires m == v % 256;
    ((m + k) % 256) as u8
}

/// Skip the eight optional scaling lists of an SPS.
fn skip_scaling_lists(br: &mut BitReader) -> (r: Result<()>)
    requires
        old(br).wf(),
    ensures
        final(br).wf(),
        final(br).bytes() == old(br).bytes(),
        match skip_lists_from(old(br).bytes(), old(br).pos(), 0) {
            Some(q) => r is Ok && final(br).pos() == q,
            None => r is Err,
        },
{
    let ghost s = br.bytes();
    let mut i: u32 = 0;
    while i < 8
        invariant
            br.wf(),
            br.bytes() == s,
            s == old(br).bytes(),
            i <= 8,
            skip_lists_from(s, br.pos(), i as nat) == skip_lists_from(s, old(br).pos(), 0),
        decreases 8 - i,
    {
        let seq_scaling_list_present_flag = read_flag(br)?;
        if seq_scaling_list_present_flag == 1 {
            Sps::skip_scaling_list(br, 16)?;
        }
        i += 1;
    }
    Ok(())
}

/// Read the High profile fields of an SPS.
fn read_high_fields(br: &mut BitReader) -> (r: Result<(u32, u8, u8)>)
    requires
        old(br).wf(),
    ensures
        final(br).wf(),
        final(br).bytes() == old(br).bytes(),
        match sps_high_fields(old(br).bytes(), old(br).pos()) {
            Some((c, l, ch, q)) => r matches Ok(t) && t == (c, l, ch) && final(br).pos() == q,
            None => r is Err,
        },
{
    let ghost s = br.bytes();
    proof { br.lemma_pos(); lemma_rd_bounds(s, br.pos()); }
    let chroma_format_idc = br.read_ue()?;
    if chroma_format_idc == 3 {
        let _separate_colour_plane_flag = read_flag(br)?;
    }
    proof { br.lemma_pos(); lemma_rd_bounds(s, br.pos()); }
    let bdl = br.read_ue()?;
    let bit_depth_luma = add_mod_byte(bdl, 8);
    proof { br.lemma_pos(); lemma_rd_bounds(s, br.pos()); }
    let bdc = br.read_ue()?;
    let bit_depth_chroma = add_mod_byte(bdc, 8);
    let _qpprime_y_zero_transform_bypass_flag = read_flag(br)?;
    let seq_scaling_matrix_present_flag = read_flag(br)?;
    if seq_scaling_matrix_present_flag == 1 {
        skip_scaling_lists(br)?;
    }
    Ok((chroma_format_idc, bit_depth_luma, bit_depth_chroma))
}

/// Skip `count` se(v) codes.
fn skip_se_codes(br: &mut BitReader, count: u32) -> (r: Result<()>)
    requires
        old(br).wf(),
    ensures
        final(br).wf(),
        final(br).bytes() == old(br).bytes(),
        match skip_se_from(old(br).bytes(), old(br).pos(), count as nat, 0) {
            Some(q) => r is Ok && final(br).pos() == q,
            None => r is Err,
        },
{
    let ghost s = br.bytes();
    let mut j: u32 = 0;
    while j < count
        invariant
            br.wf(),
            br.bytes() == s,
            s == old(br).bytes(),
            j <= count,
            skip_se_from(s, br.pos(), count as nat, j as nat) == skip_se_from(s, old(br).pos(), count as nat, 0),
        decreases count - j,
    {
        proof { br.lemma_pos(); lemma_rd_bounds(s, br.pos()); }
        let _offset_for_ref_frame = br.read_se()?;
        j += 1;
    }
    Ok(())
}

/// Read the picture order count fields of an SPS.
fn read_poc_fields(br: &mut BitReader, pic_order_cnt_type: u32) -> (r: Result<u8>)
    requires
        old(br).wf(),
    ensures
        final(br).wf(),
        final(br).bytes() == old(br).bytes(),
        match sps_poc_fields(old(br).bytes(), old(br).pos(), pic_order_cnt_type as nat) {
            Some((v, q)) => r matches Ok(x) && x == v && final(br).pos() == q,
            None => r is Err,
        },
{
    let ghost s = br.bytes();
    let mut log2_max_pic_order_cnt_lsb: u8 = 0;
    if pic_order_cnt_type == 0 {
        proof { br.lemma_pos(); lemma_rd_bounds(s, br.pos()); }
        let v = br.read_ue()?;
        log2_max_pic_order_cnt_lsb = add_mod_byte(v, 4);
    } else if pic_order_cnt_type == 1 {
        let _delta_pic_order_always_zero_flag = read_flag(br)?;
        proof { br.lemma_pos(); lemma_rd_bounds(s, br.pos()); }
        let _offset_for_non_ref_pic = br.read_se()?;
        proof { br.lemma_pos(); lemma_rd_bounds(s, br.pos()); }
        let _offset_for_top_to_bottom_field = br.read_se()?;
        proof { br.lemma_pos(); lemma_rd_bounds(s, br.pos()); }
        let n = br.read_ue()?;
        skip_se_codes(br, n)?;
    }
    Ok(log2_max_pic_order_cnt_lsb)
}

/// Read the frame cropping offsets of an SPS (zero when the flag is clear).
fn read_crop_fields(br: &mut BitReader, flag: bool) -> (r: Result<(u32, u32, u32, u32)>)
    requires
        old(br).wf(),
    ensures
        final(br).wf(),
        final(br).bytes() == old(br).bytes(),
        match sps_crop_fields(old(br).bytes(), old(br).pos(), flag) {
            Some((l, rt, t, b, q)) => r matches Ok(x) && x == (l, rt, t, b) && final(br).pos() == q,
            None => r is Err,
        },
{
    let ghost s = br.bytes();
    if !flag {
        return Ok((0, 0, 0, 0));
    }
    proof { br.lemma_pos(); lemma_rd_bounds(s, br.pos()); }
    let l = br.read_ue()?;
    proof { br.lemma_pos(); lemma_rd_bounds(s, br.pos()); }
    let rt = br.read_ue()?;
    proof { br.lemma_pos(); lemma_rd_bounds(s, br.pos()); }
    let t = br.read_ue()?;
    proof { br.lemma_pos(); lemma_rd_bounds(s, br.pos()); }
    let b = br.read_ue()?;
    Ok((l, rt, t, b))
}

/// Read the SPS fields that follow the profile-specific part.
fn read_sps_rest(br: &mut BitReader, profile_idc: Profile, level_idc: u8, seq_parameter_set_id: u32,
    chroma_format_idc: u32, bit_depth_luma: u8, bit_depth_chroma: u8) -> (r: Result<Sps>)
    requires
        old(br).wf(),
    ensures
        match sps_rest(old(br).bytes(), old(br).pos(), profile_idc, level_idc, seq_parameter_set_id,
            chroma_format_idc, bit_depth_luma, bit_depth_chroma) {
            Some(sps) => r matches Ok(x) && x == sps,
            None => r is Err,
        },
{
    let ghost s = br.bytes();
    proof { br.lemma_pos(); lemma_rd_bounds(s, br.pos()); }
    let fnum = br.read_ue()?;
    let log2_max_frame_num = add_mod_byte(fnum, 4);
    proof { br.lemma_pos(); lemma_rd_bounds(s, br.pos()); }
    let pic_order_cnt_type = br.read_ue()?;
    let log2_max_pic_order_cnt_lsb = read_poc_fields(br, pic_order_cnt_type)?;
    proof { br.lemma_pos(); lemma_rd_bounds(s, br.pos()); }
    let num_ref_frames = br.read_ue()?;
    let gaps_in_frame_num_allowed = read_flag(br)? == 1;
    proof { br.lemma_pos(); lemma_rd_bounds(s, br.pos()); }
    let pic_width_in_mbs = br.read_ue()? + 1;
    proof { br.lemma_pos(); lemma_rd_bounds(s, br.pos()); }
    let pic_height_in_map_units = br.read_ue()? + 1;
    let frame_mbs_only_flag = read_flag(br)? == 1;
    let mut mb_adaptive_frame_field_flag = false;
    if !frame_mbs_only_flag {
        mb_adaptive_frame_field_flag = read_flag(br)? == 1;
    }
    let direct_8x8_inference_flag = read_flag(br)? == 1;
    let frame_cropping_flag = read_flag(br)? == 1;
    let (frame_crop_left_offset, frame_crop_right_offset, frame_crop_top_offset, frame_crop_bottom_offset) =
        read_crop_fields(br, frame_cropping_flag)?;
    Ok(Sps {
        profile_idc,
        level_idc,
        seq_parameter_set_id,
        chroma_format_idc,
        bit_depth_luma,
        bit_depth_chroma,
        log2_max_frame_num,
        pic_order_cnt_type,
        log2_max_pic_order_cnt_lsb,
        num_ref_frames,
        gaps_in_frame_num_allowed,
        pic_width_in_mbs,
        pic_height_in_map_units,
        frame_mbs_only_flag,
        mb_adaptive_frame_field_flag,
        direct_8x8_inference_flag,
        frame_cropping_flag,
        frame_crop_left_offset,
        frame_crop_right_offset,
        frame_crop_top_offset,
        frame_crop_bottom_offset,
    })
}

impl Sps {
    /// Parse an SPS from its RBSP bytes.
    pub fn parse(rbsp: &[u8]) -> (r: Result<Sps>)
        ensures
            match spec_sps(rbsp@) {
                Some(sps) => r matches Ok(x) && x == sps,
                None => r is Err,
            },
    {
        let ghost s = rbsp@;
        let mut br = BitReader::new(rbsp);
        proof { lemma_bits8(s, 0); }
        let prof = br.read_bits(8)?;
        let profile_idc = Profile::from_u8(prof as u8);
        let _constraint_flags = br.read_bits(8)?;
        proof { lemma_bits8(s, 16); }
        let level_idc = br.read_bits(8)? as u8;
        proof { lemma_rd_bounds(s, 24); }
        let seq_parameter_set_id = br.read_ue()?;
        if seq_parameter_set_id > 31 {
            return Err(Error::invalid("H.264", "SPS: seq_parameter_set_id out of range"));
        }
        if matches!(profile_idc, Profile::High) {
            let (chroma_format_idc, bit_depth_luma, bit_depth_chroma) = read_high_fields(&mut br)?;
            read_sps_rest(&mut br, profile_idc, level_idc, seq_parameter_set_id, chroma_format_idc, bit_depth_luma, bit_depth_chroma)
        } else {
            read_sps_rest(&mut br, profile_idc, level_idc, seq_parameter_set_id, 1, 8, 8)
        }
    }

    /// Skip one scaling list of `size` entries.
    fn skip_scaling_list(br: &mut BitReader, size: usize) -> (r: Result<()>)
        requires
            old(br).wf(),
        ensures
            final(br).wf(),
            final(br).bytes() == old(br).bytes(),
            match skip_list_from(old(br).bytes(), old(br).pos(), size as nat, 0, 8, 8) {
                Some(q) => r is Ok && final(br).pos() == q,
                None => r is Err,
            },
    {
        let ghost s = br.bytes();
        let mut last_scale: u64 = 8;
        let mut next_scale: u64 = 8;
        let mut j: usize = 0;
        while j < size
            invariant
                br.wf(),
                br.bytes() == s,
                s == old(br).bytes(),
                j <= size,
                last_scale < 256,
                next_scale < 256,
                skip_list_from(s, br.pos(), size as nat, j as nat, last_scale as int, next_scale as int)
                    == skip_list_from(s, old(br).pos(), size as nat, 0, 8, 8),
            decreases size - j,
        {
            if next_scale != 0 {
                proof { br.lemma_pos(); lemma_rd_bounds(s, br.pos()); }
                let delta_scale = br.read_se()?;
                let d: u64 = (delta_scale as i64 + 0x8000_0000i64) as u64;
                proof {
                    assert(0x8000_0000int % 256 == 0);
                    assert(((last_scale + d) % 256) as int == (last_scale as int + delta_scale as int) % 256) by (nonlinear_arith)
                        requires d == delta_scale as int + 0x8000_0000, last_scale < 256;
                }
                next_scale = (last_scale + d) % 256;
            }
            if next_scale != 0 {
                last_scale = next_scale;
            }
            j += 1;
        }
        Ok(())
    }
}

impl Sps {
    /// Width in pixels: 16 per macroblock, less the left and right crop (in units of
    /// 2 for 4:2:0 chroma).
    pub fn width(&self) -> (w: usize)
        requires
            sps_width_in_range(*self),
        ensures
            w == spec_sps_width(*self),
    {
        let width = (self.pic_width_in_mbs * 16) as usize;
        if self.frame_cropping_flag {
            let crop_unit_x: u32 = if self.chroma_format_idc == 1 { 2 } else { 1 };
            width - ((self.frame_crop_left_offset + self.frame_crop_right_offset) * crop_unit_x) as usize
        } else {
            width
        }
    }

    /// Height in pixels: 16 per map unit (twice as many without frame-only coding),
    /// less the top and bottom crop.
    pub fn height(&self) -> (h: usize)
        requires
            sps_height_in_range(*self),
        ensures
            h == spec_sps_height(*self),
    {
        let height_in_mbs = if self.frame_mbs_only_flag { self.pic_height_in_map_units } else { self.pic_height_in_map_units * 2 };
        let height = (height_in_mbs * 16) as usize;
        if self.frame_cropping_flag {
            let crop_unit_y: u32 = if self.chroma_format_idc == 1 { 2 } else { 1 };
            let multiplier: u32 = if self.frame_mbs_only_flag { 1 } else { 2 };
            height - ((self.frame_crop_top_offset + self.frame_crop_bottom_offset) * crop_unit_y * multiplier) as usize
        } else {
            height
        }
    }
}

/// Picture parameter set.
#[derive(Debug, Clone, Copy, PartialEq, Eq, Structural)]
pub struct Pps {
    pub pic_parameter_set_id: u32,
    pub seq_parameter_set_id: u32,
    pub entropy_coding_mode_flag: bool,
    pub pic_order_present_flag: bool,
    pub num_slice_groups: u32,
    pub num_ref_idx_l0_default_active: u32,
    pub num_ref_idx_l1_default_active: u32,
    pub weighted_pred_flag: bool,
    pub weighted_bipred_idc: u8,
    pub pic_init_qp: i32,
    pub pic_init_qs: i32,
    pub chroma_qp_index_offset: i32,
    pub deblocking_filter_control_present_flag: bool,
    pub constrained_intra_pred_flag: bool,
    pub redundant_pic_cnt_present_flag: bool,
}

/// The two parameter set ids at the start of a PPS and the position after them.
pub open spec fn pps_ids(s: Seq<u8>) -> Option<(nat, nat, int)> {
    match rd_ue(s, 0) {
        Some((a, p1)) => match rd_ue(s, p1) {
            Some((b, p2)) => Some((a, b, p2)),
            None => None,
        },
        None => None,
    }
}

/// The two flags and `num_slice_groups_minus1` that follow the ids.
pub open spec fn pps_head(s: Seq<u8>, p: int) -> Option<(bool, bool, nat, int)> {
    match rd_bits(s, p, 1) {
        Some((e, p1)) => match rd_bits(s, p1, 1) {
            Some((o, p2)) => match rd_ue(s, p2) {
                Some((n, p3)) => Some((e == 1, o == 1, n, p3)),
                None => None,
            },
            None => None,
        },
        None => None,
    }
}

/// The reference counts, weighting fields and the three QP syntax elements.
pub open spec fn pps_mid(s: Seq<u8>, p: int) -> Option<(nat, nat, bool, nat, int, int, int, int)> {
    match rd_ue(s, p) {
        Some((l0, p1)) => match rd_ue(s, p1) {
            Some((l1, p2)) => match rd_bits(s, p2, 1) {
                Some((w, p3)) => match rd_bits(s, p3, 2) {
                    Some((bi, p4)) => match rd_se(s, p4) {
                        Some((qp, p5)) => match rd_se(s, p5) {
                            Some((qs, p6)) => match rd_se(s, p6) {
                                Some((cq, p7)) => Some((l0, l1, w == 1, bi, qp, qs, cq, p7)),
                                None => None,
                            },
                            None => None,
                        },
                        None => None,
                    },
                    None => None,
                },
                None => None,
            },
            None => None,
        },
        None => None,
    }
}

/// The three closing flags.
pub open spec fn pps_tail(s: Seq<u8>, p: int) -> Option<(bool, bool, bool)> {
    match rd_bits(s, p, 1) {
        Some((a, p1)) => match rd_bits(s, p1, 1) {
            Some((b, p2)) => match rd_bits(s, p2, 1) {
                Some((c, _)) => Some((a == 1, b == 1, c == 1)),
                None => None,
            },
            None => None,
        },
        None => None,
    }
}

/// The PPS an RBSP holds, or `None` where it ends early, holds ids out of range
/// (PPS above 255, SPS above 31) or uses several slice groups.
pub open spec fn spec_pps(s: Seq<u8>) -> Option<Pps> {
    match pps_ids(s) {
        Some((id, sid, p)) => if id > 255 || sid > 31 { None } else {
            match pps_head(s, p) {
                Some((e, o, n, q)) => if n + 1 > 1 { None } else {
                    match pps_mid(s, q) {
                        Some((l0, l1, w, bi, qp, qs, cq, r)) => match pps_tail(s, r) {
                            Some((d, c, rp)) => Some(Pps {
                                pic_parameter_set_id: id as u32,
                                seq_parameter_set_id: sid as u32,
                                entropy_coding_mode_flag: e,
                                pic_order_present_flag: o,
                                num_slice_groups: (n + 1) as u32,
                                num_ref_idx_l0_default_active: (l0 + 1) as u32,
                                num_ref_idx_l1_default_active: (l1 + 1) as u32,
                                weighted_pred_flag: w,
                                weighted_bipred_idc: bi as u8,
                                pic_init_qp: (qp + 26) as i32,
                                pic_init_qs: (qs + 26) as i32,
                                chroma_qp_index_offset: cq as i32,
                                deblocking_filter_control_present_flag: d,
                                constrained_intra_pred_flag: c,
                                redundant_pic_cnt_present_flag: rp,
                            }),
                            None => None,
                        },
                        None => None,
                    }
                },
                None => None,
            }
        },
        None => None,
    }
}

/// The ids of the PPS are read and one is out of range.
pub open spec fn pps_bad_ids(s: Seq<u8>) -> bool {
    match pps_ids(s) {
        Some((id, sid, _)) => id > 255 || sid > 31,
        None => false,
    }
}

/// The ids are valid and the PPS declares more than one slice group.
pub open spec fn pps_uses_slice_groups(s: Seq<u8>) -> bool {
    match pps_ids(s) {
        Some((id, sid, p)) => id <= 255 && sid <= 31 && match pps_head(s, p) {
            Some((_, _, n, _)) => n > 0,
            None => false,
        },
        None => false,
    }
}

/// The PPS reaches its QP fields and they are too large to take the offset 26.
pub open spec fn pps_qp_overflows(s: Seq<u8>) -> bool {
    match pps_ids(s) {
        Some((id, sid, p)) => id <= 255 && sid <= 31 && match pps_head(s, p) {
            Some((e, o, n, q)) => n == 0 && match pps_mid(s, q) {
                Some((l0, l1, w, bi, qp, qs, cq, r)) => qp + 26 > i32::MAX || qs + 26 > i32::MAX,
                None => false,
            },
            None => false,
        },
        None => false,
    }
}

fn read_pps_head(br: &mut BitReader) -> (r: Result<(bool, bool, u32)>)
    requires
        old(br).wf(),
    ensures
        final(br).wf(),
        final(br).bytes() == old(br).bytes(),
        match pps_head(old(br).bytes(), old(br).pos()) {
            Some((e, o, n, q)) => r matches Ok(x) && x == (e, o, n as u32) && final(br).pos() == q && n < 0xffff_ffff,
            None => r is Err,
        },
{
    let ghost s = br.bytes();
    let e = read_flag(br)? == 1;
    let o = read_flag(br)? == 1;
    proof { br.lemma_pos(); lemma_rd_bounds(s, br.pos()); }
    let n = br.read_ue()?;
    Ok((e, o, n))
}

fn read_pps_mid(br: &mut BitReader) -> (r: Result<(u32, u32, bool, u32, i32, i32, i32)>)
    requires
        old(br).wf(),
    ensures
        final(br).wf(),
        final(br).bytes() == old(br).bytes(),
        match pps_mid(old(br).bytes(), old(br).pos()) {
            Some((l0, l1, w, bi, qp, qs, cq, q)) => r matches Ok(x)
                && x == (l0 as u32, l1 as u32, w, bi as u32, qp as i32, qs as i32, cq as i32) && final(br).pos() == q
                && l0 < 0xffff_ffff && l1 < 0xffff_ffff && bi < 4
                && -0x7fff_ffff <= qp <= 0x7fff_ffff && -0x7fff_ffff <= qs <= 0x7fff_ffff,
            None => r is Err,
        },
{
    let ghost s = br.bytes();
    proof { br.lemma_pos(); lemma_rd_bounds(s, br.pos()); }
    let l0 = br.read_ue()?;
    proof { br.lemma_pos(); lemma_rd_bounds(s, br.pos()); }
    let l1 = br.read_ue()?;
    let w = read_flag(br)? == 1;
    proof { br.lemma_pos(); super::nal::lemma_bits_value_bound(s, br.pos(), 2); vstd::arithmetic::power2::lemma2_to64(); }
    let bi = br.read_bits(2)?;
    proof { br.lemma_pos(); lemma_rd_bounds(s, br.pos()); }
    let qp = br.read_se()?;
    proof { br.lemma_pos(); lemma_rd_bounds(s, br.pos()); }
    let qs = br.read_se()?;
    proof { br.lemma_pos(); lemma_rd_bounds(s, br.pos()); }
    let cq = br.read_se()?;
    Ok((l0, l1, w, bi, qp, qs, cq))
}

fn read_pps_tail(br: &mut BitReader) -> (r: Result<(bool, bool, bool)>)
    requires
        old(br).wf(),
    ensures
        final(br).wf(),
        final(br).bytes() == old(br).bytes(),
        match pps_tail(old(br).bytes(), old(br).pos()) {
            Some(t) => r matches Ok(x) && x == t,
            None => r is Err,
        },
{
    let a = read_flag(br)? == 1;
    let b = read_flag(br)? == 1;
    let c = read_flag(br)? == 1;
    Ok((a, b, c))
}

impl Pps {
    /// Parse a PPS from its RBSP bytes. Ids out of range are invalid; several slice
    /// groups are unsupported.
    pub fn parse(rbsp: &[u8]) -> (r: Result<Pps>)
        requires
            !pps_qp_overflows(rbsp@),
        ensures
            match spec_pps(rbsp@) {
                Some(pps) => r matches Ok(x) && x == pps,
                None => r is Err,
            },
            pps_bad_ids(rbsp@) ==> (r matches Err(e) && e.is_invalid()),
            pps_uses_slice_groups(rbsp@) ==> (r matches Err(e) && e is Unsupported),
    {
        let ghost s = rbsp@;
        let mut br = BitReader::new(rbsp);
        proof { br.lemma_pos(); lemma_rd_bounds(s, br.pos()); }
        let pic_parameter_set_id = br.read_ue()?;
        proof { br.lemma_pos(); lemma_rd_bounds(s, br.pos()); }
        let seq_parameter_set_id = br.read_ue()?;
        if pic_parameter_set_id > 255 || seq_parameter_set_id > 31 {
            return Err(Error::invalid("H.264", "PPS: invalid parameter set IDs"));
        }
        let (entropy_coding_mode_flag, pic_order_present_flag, n) = read_pps_head(&mut br)?;
        let num_slice_groups = n + 1;
        if num_slice_groups > 1 {
            return Err(Error::unsupported("H.264", "FMO not supported"));
        }
        let (l0, l1, weighted_pred_flag, bi, qp, qs, chroma_qp_index_offset) = read_pps_mid(&mut br)?;
        let (deblocking_filter_control_present_flag, constrained_intra_pred_flag, redundant_pic_cnt_present_flag) =
            read_pps_tail(&mut br)?;
        Ok(Pps {
            pic_parameter_set_id,
            seq_parameter_set_id,
            entropy_coding_mode_flag,
            pic_order_present_flag,
            num_slice_groups,
            num_ref_idx_l0_default_active: l0 + 1,
            num_ref_idx_l1_default_active: l1 + 1,
            weighted_pred_flag,
            weighted_bipred_idc: bi as u8,
            pic_init_qp: qp + 26,
            pic_init_qs: qs + 26,
            chroma_qp_index_offset,
            deblocking_filter_control_present_flag,
            constrained_intra_pred_flag,
            redundant_pic_cnt_present_flag,
        })
    }
}

/// Whether a PPS can be parsed without its QP fields overflowing when offset by 26:
/// false exactly when the data reaches QP values that large.
pub fn pps_qp_in_range(rbsp: &[u8]) -> (b: bool)
    ensures
        b == !pps_qp_overflows(rbsp@),
{
    let ghost s = rbsp@;
    let mut br = BitReader::new(rbsp);
    proof { br.lemma_pos(); lemma_rd_bounds(s, br.pos()); }
    let id = match br.read_ue() {
        Ok(v) => v,
        Err(_) => return true,
    };
    proof { br.lemma_pos(); lemma_rd_bounds(s, br.pos()); }
    let sid = match br.read_ue() {
        Ok(v) => v,
        Err(_) => return true,
    };
    if id > 255 || sid > 31 {
        return true;
    }
    let n = match read_pps_head(&mut br) {
        Ok((_, _, n)) => n,
        Err(_) => return true,
    };
    if n != 0 {
        return true;
    }
    match read_pps_mid(&mut br) {
        Ok((_, _, _, _, qp, qs, _)) => qp <= i32::MAX - 26 && qs <= i32::MAX - 26,
        Err(_) => true,
    }
}

} // verus!
