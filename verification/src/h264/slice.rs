//! Slice header parsing.
use vstd::prelude::*;
use crate::error::{Error, Result};
use super::nal::{BitReader, rd_bits, rd_ue, rd_se, lemma_rd_bounds, ue_from};
use super::rplr::{RplrCommand, RplrState};
use super::{SliceType, spec_slice_type};

verus! {

/// Slice header.
#[derive(Debug, Clone)]
pub struct SliceHeader {
    pub first_mb_in_slice: u32,
    pub slice_type: SliceType,
    pub pic_parameter_set_id: u32,
    pub frame_num: u32,
    pub field_pic_flag: bool,
    pub bottom_field_flag: bool,
    pub idr_pic_id: Option<u32>,
    pub pic_order_cnt_lsb: Option<u32>,
    pub delta_pic_order_cnt_bottom: Option<i32>,
    pub delta_pic_order_cnt: [i32; 2],
    pub redundant_pic_cnt: u32,
    pub direct_spatial_mv_pred_flag: bool,
    pub num_ref_idx_active_override_flag: bool,
    pub num_ref_idx_l0_active: u32,
    pub num_ref_idx_l1_active: u32,
    pub rplr: RplrState,
    pub weighted_pred_flag: bool,
    pub weighted_bipred_idc: u8,
    pub slice_qp_delta: i32,
    pub disable_deblocking_filter_idc: u8,
    pub slice_alpha_c0_offset: i32,
    pub slice_beta_offset: i32,
}

/// A ue(v) code ends within the data.
proof fn lemma_ue_within(s: Seq<u8>, pos: int, k: nat)
    ensures
        ue_from(s, pos, k) matches Some((v, p)) ==> p <= s.len() * 8,
    decreases 32 - k,
{
    if k > 31 || pos + k >= s.len() * 8 {
    } else if super::nal::bit_at(s, pos + k) == 1 {
    } else if k + 1 <= 31 {
        lemma_ue_within(s, pos, k + 1);
    }
}

/// What reading a ue(v) code gives: a position after `p` and within the data.
pub proof fn lemma_rd_ue_step(s: Seq<u8>, p: int)
    ensures
        rd_ue(s, p) matches Some((v, q)) ==> p < q <= s.len() * 8 && v < 0xffff_ffff,
        rd_se(s, p) matches Some((v, q)) ==> p < q <= s.len() * 8 && -0x7fff_ffff <= v <= 0x7fff_ffff,
{
    lemma_rd_bounds(s, p);
    if p >= 0 {
        lemma_ue_within(s, p, 0);
    }
}

/// The command of a `modification_of_pic_nums_idc` below 3 with its parameter.
pub open spec fn rplr_cmd_of(idc: nat, param: nat) -> RplrCommand {
    if idc == 0 {
        RplrCommand::ShortTermSub { abs_diff_pic_num: param as u32 }
    } else if idc == 1 {
        RplrCommand::ShortTermAdd { abs_diff_pic_num: param as u32 }
    } else {
        RplrCommand::LongTerm { long_term_pic_num: param as u32 }
    }
}

/// The modification commands at bit `p`, up to and including the `End` command
/// (`idc` 3), and the position after them; `None` when the data ends first or an
/// `idc` above 3 occurs.
pub open spec fn rplr_cmds(s: Seq<u8>, p: int) -> Option<(Seq<RplrCommand>, int)>
    decreases s.len() * 8 - p,
{
    match rd_ue(s, p) {
        None => None,
        Some((idc, q)) => {
            if idc == 3 {
                Some((seq![RplrCommand::End], q))
            } else {
                match rd_ue(s, q) {
                    None => None,
                    Some((param, q2)) => {
                        if idc > 3 {
                            None
                        } else {
                            proof {
                                lemma_rd_ue_step(s, p);
                                lemma_rd_ue_step(s, q);
                            }
                            match rplr_cmds(s, q2) {
                                None => None,
                                Some((rest, q3)) => Some((seq![rplr_cmd_of(idc, param)] + rest, q3)),
                            }
                        }
                    },
                }
            }
        },
    }
}

/// `first_mb_in_slice`, the slice type, the PPS id, and the position after them.
pub open spec fn sh_head(s: Seq<u8>) -> Option<(u32, SliceType, u32, int)> {
    match rd_ue(s, 0) {
        None => None,
        Some((first, p1)) => match rd_ue(s, p1) {
            None => None,
            Some((ty, p2)) => match rd_ue(s, p2) {
                None => None,
                Some((pps, p3)) => Some((first as u32, spec_slice_type(ty as u32), pps as u32, p3)),
            },
        },
    }
}

/// `frame_num` and, for an IDR slice, `idr_pic_id`.
pub open spec fn sh_frame(s: Seq<u8>, p: int, is_idr: bool, log2_max_frame_num: u8) -> Option<(u32, Option<u32>, int)> {
    match rd_bits(s, p, log2_max_frame_num as nat) {
        None => None,
        Some((frame, q)) => if is_idr {
            match rd_ue(s, q) {
                None => None,
                Some((id, q2)) => Some((frame as u32, Some(id as u32), q2)),
            }
        } else {
            Some((frame as u32, None, q))
        },
    }
}

/// The picture order count fields for `pic_order_cnt_type` 0 and 1.
pub open spec fn sh_poc(s: Seq<u8>, p: int, poc_type: u8, log2_max_poc_lsb: u8)
    -> Option<(Option<u32>, Option<i32>, i32, i32, int)> {
    if poc_type == 0 {
        match rd_bits(s, p, log2_max_poc_lsb as nat) {
            None => None,
            Some((lsb, q)) => match rd_se(s, q) {
                None => None,
                Some((bottom, q2)) => Some((Some(lsb as u32), Some(bottom as i32), 0i32, 0i32, q2)),
            },
        }
    } else if poc_type == 1 {
        match rd_se(s, p) {
            None => None,
            Some((d0, q)) => match rd_se(s, q) {
                None => None,
                Some((d1, q2)) => Some((None, None, d0 as i32, d1 as i32, q2)),
            },
        }
    } else {
        Some((None, None, 0i32, 0i32, p))
    }
}

/// Whether a slice type carries reference lists: all but I and SI.
pub open spec fn has_ref_lists(t: SliceType) -> bool {
    t != SliceType::I && t != SliceType::Si
}

/// The direct flag, the override flag and the two active reference counts.
pub open spec fn sh_refs(s: Seq<u8>, p: int, t: SliceType, direct_pps: bool) -> Option<(bool, bool, u32, u32, int)> {
    let direct = if t == SliceType::B { rd_bits(s, p, 1) } else { Some((0nat, p)) };
    match direct {
        None => None,
        Some((dv, p1)) => {
            let dflag = if t == SliceType::B { dv == 1 } else { direct_pps };
            let ovr = if has_ref_lists(t) { rd_bits(s, p1, 1) } else { Some((0nat, p1)) };
            match ovr {
                None => None,
                Some((ov, p2)) => {
                    if ov == 1 {
                        match rd_ue(s, p2) {
                            None => None,
                            Some((n0, p3)) => if t == SliceType::B {
                                match rd_ue(s, p3) {
                                    None => None,
                                    Some((n1, p4)) => Some((dflag, true, (n0 + 1) as u32, (n1 + 1) as u32, p4)),
                                }
                            } else {
                                Some((dflag, true, (n0 + 1) as u32, 1u32, p3))
                            },
                        }
                    } else {
                        Some((dflag, false, 1u32, 1u32, p2))
                    }
                },
            }
        },
    }
}

/// One list's modification flag and commands, read only when `present`.
pub open spec fn sh_rplr(s: Seq<u8>, p: int, present: bool) -> Option<(bool, Seq<RplrCommand>, int)> {
    if !present {
        Some((false, Seq::empty(), p))
    } else {
        match rd_bits(s, p, 1) {
            None => None,
            Some((f, q)) => if f == 1 {
                match rplr_cmds(s, q) {
                    None => None,
                    Some((cmds, q2)) => Some((true, cmds, q2)),
                }
            } else {
                Some((false, Seq::empty(), q))
            },
        }
    }
}

/// `slice_qp_delta`, `disable_deblocking_filter_idc` (kept modulo 256) and the two
/// filter offsets, read unless the idc is 1.
pub open spec fn sh_tail(s: Seq<u8>, p: int) -> Option<(i32, u8, i32, i32)> {
    match rd_se(s, p) {
        None => None,
        Some((qp, q)) => match rd_ue(s, q) {
            None => None,
            Some((idc, q2)) => {
                let dbf = (idc % 256) as u8;
                if dbf != 1 {
                    match rd_se(s, q2) {
                        None => None,
                        Some((alpha, q3)) => match rd_se(s, q3) {
                            None => None,
                            Some((beta, q4)) => Some((qp as i32, dbf, alpha as i32, beta as i32)),
                        },
                    }
                } else {
                    Some((qp as i32, dbf, 0i32, 0i32))
                }
            },
        },
    }
}

/// Whether `h` is the header read from `s` with these parameters, or, for `None`,
/// whether reading fails: the data ends early, the PPS id exceeds 255, or a list
/// modification command has an idc above 3.
pub open spec fn slice_header_read(s: Seq<u8>, is_idr: bool, log2_max_frame_num: u8, poc_type: u8,
    log2_max_poc_lsb: u8, direct_pps: bool, h: Option<SliceHeader>) -> bool {
    match sh_head(s) {
        None => h is None,
        Some((first, t, pps, p1)) => if pps > 255 { h is None } else {
            match sh_frame(s, p1, is_idr, log2_max_frame_num) {
                None => h is None,
                Some((frame, idr, p2)) => match sh_poc(s, p2, poc_type, log2_max_poc_lsb) {
                    None => h is None,
                    Some((lsb, bottom, d0, d1, p3)) => match sh_refs(s, p3, t, direct_pps) {
                        None => h is None,
                        Some((direct, ovr, n0, n1, p4)) => match sh_rplr(s, p4, has_ref_lists(t)) {
                            None => h is None,
                            Some((f0, c0, p5)) => match sh_rplr(s, p5, t == SliceType::B) {
                                None => h is None,
                                Some((f1, c1, p6)) => match sh_tail(s, p6) {
                                    None => h is None,
                                    Some((qp, dbf, alpha, beta)) => match h {
                                        None => false,
                                        Some(h) => {
                                            &&& h.first_mb_in_slice == first
                                            &&& h.slice_type == t
                                            &&& h.pic_parameter_set_id == pps
                                            &&& h.frame_num == frame
                                            &&& !h.field_pic_flag
                                            &&& !h.bottom_field_flag
                                            &&& h.idr_pic_id == idr
                                            &&& h.pic_order_cnt_lsb == lsb
                                            &&& h.delta_pic_order_cnt_bottom == bottom
                                            &&& h.delta_pic_order_cnt@ == seq![d0, d1]
                                            &&& h.redundant_pic_cnt == 0
                                            &&& h.direct_spatial_mv_pred_flag == direct
                                            &&& h.num_ref_idx_active_override_flag == ovr
                                            &&& h.num_ref_idx_l0_active == n0
                                            &&& h.num_ref_idx_l1_active == n1
                                            &&& h.rplr.list0_reordering == f0
                                            &&& h.rplr.list0_commands@ == c0
                                            &&& h.rplr.list1_reordering == f1
                                            &&& h.rplr.list1_commands@ == c1
                                            &&& !h.weighted_pred_flag
                                            &&& h.weighted_bipred_idc == 0
                                            &&& h.slice_qp_delta == qp
                                            &&& h.disable_deblocking_filter_idc == dbf
                                            &&& h.slice_alpha_c0_offset == alpha
                                            &&& h.slice_beta_offset == beta
                                        },
                                    },
                                },
                            },
                        },
                    },
                },
            }
        },
    }
}

/// Read one flag bit.
fn read_flag(br: &mut BitReader) -> (r: Result<u32>)
    requires
        old(br).wf(),
    ensures
        final(br).wf(),
        final(br).bytes() == old(br).bytes(),
        match rd_bits(old(br).bytes(), old(br).pos(), 1) {
            Some((v, q)) => r matches Ok(x) && x == v && final(br).pos() == q,
            None => r is Err,
        },
{
    proof {
        old(br).lemma_pos();
    }
    br.read_bits(1)
}

/// Read list modification commands up to the `End` command.
fn read_rplr_commands(br: &mut BitReader) -> (r: Result<Vec<RplrCommand>>)
    requires
        old(br).wf(),
    ensures
        final(br).wf(),
        final(br).bytes() == old(br).bytes(),
        match rplr_cmds(old(br).bytes(), old(br).pos()) {
            Some((cmds, q)) => r matches Ok(v) && v@ == cmds && final(br).pos() == q,
            None => r is Err,
        },
{
    let ghost s = br.bytes();
    let ghost start = br.pos();
    let mut cmds: Vec<RplrCommand> = Vec::new();
    proof {
        br.lemma_pos();
        assert(cmds@ + Seq::<RplrCommand>::empty() == Seq::<RplrCommand>::empty());
    }
    loop
        invariant
            br.wf(),
            br.bytes() == s,
            s == old(br).bytes(),
            start == old(br).pos(),
            0 <= br.pos() <= s.len() * 8,
            rplr_cmds(s, start) == (match rplr_cmds(s, br.pos()) {
                Some((rest, q)) => Some((cmds@ + rest, q)),
                None => None::<(Seq<RplrCommand>, int)>,
            }),
        decreases s.len() * 8 - br.pos(),
    {
        let ghost p = br.pos();
        proof {
            lemma_rd_ue_step(s, p);
        }
        let idc = match br.read_ue() {
            Ok(v) => v,
            Err(e) => {
                return Err(e);
            }
        };
        if idc == 3 {
            cmds.push(RplrCommand::End);
            proof {
                assert(rplr_cmds(s, p) == Some((seq![RplrCommand::End], br.pos())));
            }
            return Ok(cmds);
        }
        let ghost q = br.pos();
        proof {
            lemma_rd_ue_step(s, q);
        }
        let param = match br.read_ue() {
            Ok(v) => v,
            Err(e) => {
                return Err(e);
            }
        };
        let cmd = match RplrCommand::from_idc(idc, param) {
            Ok(c) => c,
            Err(e) => {
                return Err(e);
            }
        };
        proof {
            assert(cmd == rplr_cmd_of(idc as nat, param as nat));
            let ghost old_cmds = cmds@;
            assert(rplr_cmds(s, p) == (match rplr_cmds(s, br.pos()) {
                Some((rest, q3)) => Some((seq![cmd] + rest, q3)),
                None => None::<(Seq<RplrCommand>, int)>,
            }));
            match rplr_cmds(s, br.pos()) {
                Some((rest, q3)) => {
                    assert(old_cmds.push(cmd) + rest == old_cmds + (seq![cmd] + rest));
                },
                None => {},
            }
        }
        cmds.push(cmd);
    }
}

/// Read the fields of `sh_frame`.
fn read_frame_fields(br: &mut BitReader, is_idr: bool, log2_max_frame_num: u8) -> (r: Result<(u32, Option<u32>)>)
    requires
        old(br).wf(),
    ensures
        final(br).wf(),
        final(br).bytes() == old(br).bytes(),
        match sh_frame(old(br).bytes(), old(br).pos(), is_idr, log2_max_frame_num) {
            Some((f, idr, q)) => r matches Ok(v) && v == (f, idr) && final(br).pos() == q,
            None => r is Err,
        },
{
    proof {
        old(br).lemma_pos();
    }
    let frame_num = br.read_bits(log2_max_frame_num)?;
    proof {
        lemma_rd_ue_step(br.bytes(), br.pos());
    }
    let idr_pic_id = if is_idr { Some(br.read_ue()?) } else { None };
    Ok((frame_num, idr_pic_id))
}

/// Read the fields of `sh_poc`.
fn read_poc_fields(br: &mut BitReader, poc_type: u8, log2_max_poc_lsb: u8)
    -> (r: Result<(Option<u32>, Option<i32>, i32, i32)>)
    requires
        old(br).wf(),
    ensures
        final(br).wf(),
        final(br).bytes() == old(br).bytes(),
        match sh_poc(old(br).bytes(), old(br).pos(), poc_type, log2_max_poc_lsb) {
            Some((lsb, bottom, d0, d1, q)) => r matches Ok(v) && v == (lsb, bottom, d0, d1) && final(br).pos() == q,
            None => r is Err,
        },
{
    proof {
        old(br).lemma_pos();
    }
    if poc_type == 0 {
        let lsb = br.read_bits(log2_max_poc_lsb)?;
        proof {
            lemma_rd_ue_step(br.bytes(), br.pos());
        }
        let bottom = br.read_se()?;
        Ok((Some(lsb), Some(bottom), 0, 0))
    } else if poc_type == 1 {
        proof {
            lemma_rd_ue_step(br.bytes(), br.pos());
        }
        let d0 = br.read_se()?;
        proof {
            lemma_rd_ue_step(br.bytes(), br.pos());
        }
        let d1 = br.read_se()?;
        Ok((None, None, d0, d1))
    } else {
        Ok((None, None, 0, 0))
    }
}

/// Read the fields of `sh_refs`.
fn read_ref_fields(br: &mut BitReader, t: SliceType, direct_pps: bool) -> (r: Result<(bool, bool, u32, u32)>)
    requires
        old(br).wf(),
    ensures
        final(br).wf(),
        final(br).bytes() == old(br).bytes(),
        match sh_refs(old(br).bytes(), old(br).pos(), t, direct_pps) {
            Some((d, o, n0, n1, q)) => r matches Ok(v) && v == (d, o, n0, n1) && final(br).pos() == q,
            None => r is Err,
        },
{
    let direct = if t == SliceType::B { read_flag(br)? == 1 } else { direct_pps };
    let ovr = if t != SliceType::I && t != SliceType::Si { read_flag(br)? == 1 } else { false };
    let mut n0: u32 = 1;
    let mut n1: u32 = 1;
    if ovr {
        proof {
            lemma_rd_ue_step(br.bytes(), br.pos());
        }
        n0 = br.read_ue()? + 1;
        if t == SliceType::B {
            proof {
                lemma_rd_ue_step(br.bytes(), br.pos());
            }
            n1 = br.read_ue()? + 1;
        }
    }
    Ok((direct, ovr, n0, n1))
}

/// Read one list's modification flag and commands, when `present`.
fn read_list_modification(br: &mut BitReader, present: bool) -> (r: Result<(bool, Vec<RplrCommand>)>)
    requires
        old(br).wf(),
    ensures
        final(br).wf(),
        final(br).bytes() == old(br).bytes(),
        match sh_rplr(old(br).bytes(), old(br).pos(), present) {
            Some((f, cmds, q)) => r matches Ok(v) && v.0 == f && v.1@ == cmds && final(br).pos() == q,
            None => r is Err,
        },
{
    if present && read_flag(br)? == 1 {
        let cmds = read_rplr_commands(br)?;
        return Ok((true, cmds));
    }
    Ok((false, Vec::new()))
}

/// Read the fields of `sh_tail`.
fn read_tail_fields(br: &mut BitReader) -> (r: Result<(i32, u8, i32, i32)>)
    requires
        old(br).wf(),
    ensures
        final(br).wf(),
        final(br).bytes() == old(br).bytes(),
        match sh_tail(old(br).bytes(), old(br).pos()) {
            Some(t) => r matches Ok(v) && v == t,
            None => r is Err,
        },
{
    proof {
        old(br).lemma_pos();
        lemma_rd_ue_step(br.bytes(), br.pos());
    }
    let qp = br.read_se()?;
    proof {
        lemma_rd_ue_step(br.bytes(), br.pos());
    }
    let raw = br.read_ue()?;
    let dbf = (raw % 256) as u8;
    if dbf != 1 {
        proof {
            lemma_rd_ue_step(br.bytes(), br.pos());
        }
        let alpha = br.read_se()?;
        proof {
            lemma_rd_ue_step(br.bytes(), br.pos());
        }
        let beta = br.read_se()?;
        return Ok((qp, dbf, alpha, beta));
    }
    Ok((qp, dbf, 0, 0))
}

impl SliceHeader {
    /// Parse a slice header from RBSP data with the fields it needs from the SPS and
    /// PPS: whether the slice is IDR, `log2_max_frame_num`, `pic_order_cnt_type`,
    /// `log2_max_pic_order_cnt_lsb` and the PPS direct prediction flag. Frame
    /// pictures only: `field_pic_flag` and `bottom_field_flag` are false; weighted
    /// prediction flags stay off. `pic_init_qp_minus26` is not read here.
    #[verifier::rlimit(60)]
    #[verifier::spinoff_prover]
    pub fn parse_with_params(rbsp: &[u8], is_idr: bool, log2_max_frame_num: u8, pic_order_cnt_type: u8,
        log2_max_poc_lsb: u8, direct_spatial_mv_pred_flag_pps: bool, pic_init_qp_minus26: i32) -> (r: Result<SliceHeader>)
        ensures
            slice_header_read(rbsp@, is_idr, log2_max_frame_num, pic_order_cnt_type, log2_max_poc_lsb,
                direct_spatial_mv_pred_flag_pps, match r { Ok(h) => Some(h), Err(_) => None }),
    {
        let ghost s = rbsp@;
        let mut br = BitReader::new(rbsp);
        proof {
            lemma_rd_ue_step(s, 0);
        }
        let first_mb_in_slice = br.read_ue()?;
        proof {
            lemma_rd_ue_step(s, br.pos());
        }
        let slice_type_raw = br.read_ue()?;
        let slice_type = SliceType::from_u32(slice_type_raw)?;
        proof {
            lemma_rd_ue_step(s, br.pos());
        }
        let pic_parameter_set_id = br.read_ue()?;
        if pic_parameter_set_id > 255 {
            return Err(Error::invalid("H.264", "Invalid PPS ID in slice header"));
        }
        let (frame_num, idr_pic_id) = read_frame_fields(&mut br, is_idr, log2_max_frame_num)?;
        let (pic_order_cnt_lsb, delta_pic_order_cnt_bottom, d0, d1) =
            read_poc_fields(&mut br, pic_order_cnt_type, log2_max_poc_lsb)?;
        let (direct_spatial_mv_pred_flag, num_ref_idx_active_override_flag, num_ref_idx_l0_active,
            num_ref_idx_l1_active) = read_ref_fields(&mut br, slice_type, direct_spatial_mv_pred_flag_pps)?;
        let lists = slice_type != SliceType::I && slice_type != SliceType::Si;
        let (f0, c0) = read_list_modification(&mut br, lists)?;
        let (f1, c1) = read_list_modification(&mut br, slice_type == SliceType::B)?;
        let (slice_qp_delta, disable_deblocking_filter_idc, slice_alpha_c0_offset, slice_beta_offset) =
            read_tail_fields(&mut br)?;
        let rplr = RplrState { list0_commands: c0, list1_commands: c1, list0_reordering: f0, list1_reordering: f1 };
        let delta_pic_order_cnt: [i32; 2] = [d0, d1];
        let h = SliceHeader {
            first_mb_in_slice,
            slice_type,
            pic_parameter_set_id,
            frame_num,
            field_pic_flag: false,
            bottom_field_flag: false,
            idr_pic_id,
            pic_order_cnt_lsb,
            delta_pic_order_cnt_bottom,
            delta_pic_order_cnt,
            redundant_pic_cnt: 0,
            direct_spatial_mv_pred_flag,
            num_ref_idx_active_override_flag,
            num_ref_idx_l0_active,
            num_ref_idx_l1_active,
            rplr,
            weighted_pred_flag: false,
            weighted_bipred_idc: 0,
            slice_qp_delta,
            disable_deblocking_filter_idc,
            slice_alpha_c0_offset,
            slice_beta_offset,
        };
        proof {
            assert(h.delta_pic_order_cnt@ == seq![d0, d1]);
        }
        Ok(h)
    }

    /// Parse with the defaults of a non-IDR slice: `log2_max_frame_num` 4,
    /// `pic_order_cnt_type` 0, `log2_max_pic_order_cnt_lsb` 8, PPS direct flag off.
    pub fn parse(rbsp: &[u8]) -> (r: Result<SliceHeader>)
        ensures
            slice_header_read(rbsp@, false, 4, 0, 8, false, match r { Ok(h) => Some(h), Err(_) => None }),
    {
        SliceHeader::parse_with_params(rbsp, false, 4, 0, 8, false, 0)
    }

    /// The slice QP: `26 + pic_init_qp_minus26 + slice_qp_delta`.
    pub fn calc_slice_qp(&self, pic_init_qp_minus26: i32) -> (qp: i32)
        requires
            26 + pic_init_qp_minus26 <= i32::MAX,
            i32::MIN <= 26 + pic_init_qp_minus26 + self.slice_qp_delta <= i32::MAX,
        ensures
            qp == 26 + pic_init_qp_minus26 + self.slice_qp_delta,
    {
        26 + pic_init_qp_minus26 + self.slice_qp_delta
    }

    /// Whether the slice is used for reference: every slice but a B slice.
    pub fn is_reference(&self) -> (b: bool)
        ensures
            b == (self.slice_type != SliceType::B),
    {
        self.slice_type != SliceType::B
    }
}

/// The slice type and PPS id of the header read from `s` with the default
/// parameters, or `None` when it cannot be read.
pub open spec fn slice_kind(s: Seq<u8>) -> Option<(SliceType, u32)> {
    if exists|h: SliceHeader| slice_header_read(s, false, 4, 0, 8, false, Some(h)) {
        let h = choose|h: SliceHeader| slice_header_read(s, false, 4, 0, 8, false, Some(h));
        Some((h.slice_type, h.pic_parameter_set_id))
    } else {
        None
    }
}

/// A header read with the default parameters has the type and PPS id of
/// `slice_kind`; a failed read has none.
pub proof fn lemma_slice_kind(s: Seq<u8>, r: Option<SliceHeader>)
    requires
        slice_header_read(s, false, 4, 0, 8, false, r),
    ensures
        match r {
            Some(h) => slice_kind(s) == Some((h.slice_type, h.pic_parameter_set_id)),
            None => slice_kind(s) is None,
        },
{
    match r {
        Some(h) => {
            assert(slice_header_read(s, false, 4, 0, 8, false, Some(h)));
            let h2 = choose|h: SliceHeader| slice_header_read(s, false, 4, 0, 8, false, Some(h));
            assert(slice_header_read(s, false, 4, 0, 8, false, Some(h2)));
        },
        None => {
            assert forall|h: SliceHeader| !slice_header_read(s, false, 4, 0, 8, false, Some(h)) by {}
        },
    }
}

} // verus!
