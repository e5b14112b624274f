//! The H.264 decoder: parameter sets by id, slices decoded macroblock by
//! macroblock into YUV 4:2:0 frames, and the last frame kept as reference.
use vstd::prelude::*;
use std::collections::HashMap;
use crate::error::{Error, Result};
use crate::filter::lemma_row_col_unique;
use crate::frame::{Frame, Plane, PixelFormat, same_frame, same_plane};
use super::macroblock::{decode_i_macroblock, decode_mb_type_i, decode_mb_type_p, decode_p_macroblock, i_mb_spec,
    p_mb_spec, spec_i_mb_type, spec_p_mb_type, mvd_at, inter16_ok, MacroblockData, PMbType, IMbType};
use super::motion::{parse_mvd, qpel_int, reach, reach_offset};
use super::nal::{extract_nal_units, BitReader, NalUnit, nal_payloads, scan_start_codes, unescape, rd_ue};
use super::parser::{Pps, Sps, spec_sps, spec_pps, pps_qp_overflows, pps_qp_in_range, sps_dims_in_range,
    spec_sps_width, spec_sps_height};
use super::slice::{SliceHeader, slice_kind, lemma_slice_kind};
use super::{NalType, SliceType, spec_nal_type};

verus! {

/// The raster index of sample `(fx, fy)` in a plane with rows of `pw` samples.
pub open spec fn px(pw: int, fx: int, fy: int) -> int {
    fy * pw + fx
}

/// Sample `(fx, fy)` of a plane built from square blocks of `size` samples laid
/// `mbw` to a row: block `k` holds `blks[k]` in raster order, and samples of
/// blocks not decoded are mid-gray.
pub open spec fn mb_pixel(blks: Seq<Seq<u8>>, size: int, mbw: int, fx: int, fy: int) -> u8 {
    let k = (fy / size) * mbw + fx / size;
    if k < blks.len() { blks[k][(fy % size) * size + fx % size] } else { 128u8 }
}

/// A plane of `pw` by `ph` samples built from the given blocks.
pub open spec fn mb_plane(blks: Seq<Seq<u8>>, size: int, mbw: int, pw: int, ph: int) -> Seq<u8> {
    Seq::new((pw * ph) as nat, |i: int| mb_pixel(blks, size, mbw, i % pw, i / pw))
}

/// Sample `(fx, fy)` lies in the block at block position `(bx, by)`.
pub open spec fn in_block(fx: int, fy: int, bx: int, by: int, size: int) -> bool {
    by * size <= fy < by * size + size && bx * size <= fx < bx * size + size
}

/// `new` is `old` with the block at `(bx, by)` replaced by `blk`, clipped to the plane.
pub open spec fn placed(new: Seq<u8>, old: Seq<u8>, blk: Seq<u8>, size: int, bx: int, by: int, pw: int, ph: int) -> bool {
    &&& new.len() == old.len()
    &&& forall|fy: int, fx: int| 0 <= fy < ph && 0 <= fx < pw ==> new[#[trigger] px(pw, fx, fy)]
        == (if in_block(fx, fy, bx, by, size) { blk[(fy - by * size) * size + fx - bx * size] } else { old[px(pw, fx, fy)] })
}

proof fn lemma_px_bound(pw: int, ph: int, fx: int, fy: int)
    requires
        0 <= fy < ph,
        0 <= fx < pw,
    ensures
        0 <= px(pw, fx, fy) < pw * ph,
{
    assert(0 <= fy * pw + fx < pw * ph) by (nonlinear_arith)
        requires 0 <= fy < ph, 0 <= fx < pw;
}

/// Copy a square block of `size` samples into a plane of `pw` by `ph` samples at
/// block position `(bx, by)`, leaving out what falls outside the plane.
fn place_block(plane: &mut Vec<u8>, blk: &Vec<u8>, size: usize, bx: usize, by: usize, pw: usize, ph: usize)
    requires
        old(plane)@.len() == pw * ph,
        blk@.len() == size * size,
        bx * size + size <= usize::MAX,
        by * size + size <= usize::MAX,
    ensures
        placed(final(plane)@, old(plane)@, blk@, size as int, bx as int, by as int, pw as int, ph as int),
{
    let ghost before = plane@;
    let blen = blk.len();
    let plen = plane.len();
    let mut y: usize = 0;
    while y < size
        invariant
            y <= size,
            plane@.len() == pw * ph,
            before.len() == pw * ph,
            before == old(plane)@,
            blk@.len() == size * size,
            blen == blk@.len(),
            plen == plane@.len(),
            bx * size + size <= usize::MAX,
            by * size + size <= usize::MAX,
            forall|fy: int, fx: int| 0 <= fy < ph && 0 <= fx < pw ==> plane@[#[trigger] px(pw as int, fx, fy)]
                == (if in_block(fx, fy, bx as int, by as int, size as int) && fy < by * size + y {
                    blk@[(fy - by * size) * size + fx - bx * size]
                } else {
                    before[px(pw as int, fx, fy)]
                }),
        decreases size - y,
    {
        let mut x: usize = 0;
        while x < size
            invariant
                y < size,
                x <= size,
                plane@.len() == pw * ph,
                before.len() == pw * ph,
                blk@.len() == size * size,
                blen == blk@.len(),
                plen == plane@.len(),
            plen == plane@.len(),
                bx * size + size <= usize::MAX,
                by * size + size <= usize::MAX,
                forall|fy: int, fx: int| 0 <= fy < ph && 0 <= fx < pw ==> plane@[#[trigger] px(pw as int, fx, fy)]
                    == (if in_block(fx, fy, bx as int, by as int, size as int)
                        && (fy < by * size + y || (fy == by * size + y && fx < bx * size + x)) {
                        blk@[(fy - by * size) * size + fx - bx * size]
                    } else {
                        before[px(pw as int, fx, fy)]
                    }),
            decreases size - x,
        {
            assert(by * size + y < by * size + size);
            assert(bx * size + x < bx * size + size);
            let frame_y = by * size + y;
            let frame_x = bx * size + x;
            if frame_y < ph && frame_x < pw {
                proof {
                    lemma_px_bound(pw as int, ph as int, frame_x as int, frame_y as int);
                    assert(y * size + x < size * size) by (nonlinear_arith)
                        requires y < size, x < size;
                    assert forall|fy: int, fx: int| 0 <= fy < ph && 0 <= fx < pw && (fy != frame_y || fx != frame_x)
                        implies #[trigger] px(pw as int, fx, fy) != px(pw as int, frame_x as int, frame_y as int)
                        && 0 <= px(pw as int, fx, fy) < pw * ph by {
                        lemma_px_bound(pw as int, ph as int, fx, fy);
                        if px(pw as int, fx, fy) == px(pw as int, frame_x as int, frame_y as int) {
                            lemma_row_col_unique(fy, fx, frame_y as int, frame_x as int, pw as int);
                        }
                    }
                }
                let idx = frame_y * pw + frame_x;
                assert(idx == px(pw as int, frame_x as int, frame_y as int));
                plane.set(idx, blk[y * size + x]);
                assert(plane@[px(pw as int, frame_x as int, frame_y as int)]
                    == blk@[(frame_y - by * size) * size + frame_x - bx * size]);
            }
            x += 1;
        }
        y += 1;
    }
}

/// Sample `v` lies in block row `b` exactly when its quotient by `size` is `b`.
proof fn lemma_in_row(v: int, b: int, size: int)
    requires
        size >= 1,
        v >= 0,
        b >= 0,
    ensures
        (b * size <= v < b * size + size) <==> v / size == b,
        v / size == b ==> v - b * size == v % size,
{
    vstd::arithmetic::div_mod::lemma_fundamental_div_mod(v, size);
    vstd::arithmetic::div_mod::lemma_mod_bound(v, size);
    if b * size <= v < b * size + size {
        vstd::arithmetic::div_mod::lemma_fundamental_div_mod_converse(v, size, b, v - b * size);
    }
    if v / size == b {
        assert(v == size * b + v % size);
        assert(b * size == size * b) by (nonlinear_arith);
    }
}

/// Placing the block of the next index into a plane of decoded blocks gives the
/// plane with that block added.
proof fn lemma_place_plane(old: Seq<u8>, new: Seq<u8>, blks: Seq<Seq<u8>>, blk: Seq<u8>, size: int, mbw: int,
    pw: int, ph: int)
    requires
        size >= 1,
        mbw >= 1,
        0 <= pw <= size * mbw,
        ph >= 0,
        old == mb_plane(blks, size, mbw, pw, ph),
        placed(new, old, blk, size, (blks.len() as int) % mbw, (blks.len() as int) / mbw, pw, ph),
    ensures
        new == mb_plane(blks.push(blk), size, mbw, pw, ph),
{
    let k = blks.len() as int;
    let bx = k % mbw;
    let by = k / mbw;
    vstd::arithmetic::div_mod::lemma_fundamental_div_mod(k, mbw);
    vstd::arithmetic::div_mod::lemma_mod_bound(k, mbw);
    vstd::arithmetic::div_mod::lemma_div_pos_is_pos(k, mbw);
    assert forall|i: int| 0 <= i < pw * ph implies #[trigger] new[i] == mb_plane(blks.push(blk), size, mbw, pw, ph)[i] by {
        assert(pw > 0) by (nonlinear_arith) requires 0 <= i < pw * ph, pw >= 0, ph >= 0;
        let fx = i % pw;
        let fy = i / pw;
        vstd::arithmetic::div_mod::lemma_fundamental_div_mod(i, pw);
        vstd::arithmetic::div_mod::lemma_mod_bound(i, pw);
        vstd::arithmetic::div_mod::lemma_div_pos_is_pos(i, pw);
        assert(fy < ph) by {
            vstd::arithmetic::div_mod::lemma_multiply_divide_lt(i, pw, ph);
        }
        assert(i == px(pw, fx, fy)) by (nonlinear_arith) requires i == pw * (i / pw) + i % pw, fx == i % pw, fy == i / pw;
        let cx = fx / size;
        let cy = fy / size;
        vstd::arithmetic::div_mod::lemma_div_pos_is_pos(fx, size);
        vstd::arithmetic::div_mod::lemma_div_pos_is_pos(fy, size);
        assert(cx < mbw) by {
            assert(fx < size * mbw);
            vstd::arithmetic::div_mod::lemma_multiply_divide_lt(fx, size, mbw);
        }
        lemma_in_row(fy, by, size);
        lemma_in_row(fx, bx, size);
        let kk = cy * mbw + cx;
        if kk == k {
            lemma_row_col_unique(cy, cx, by, bx, mbw);
        }
        if cy == by && cx == bx {
            assert(kk == k) by (nonlinear_arith) requires kk == cy * mbw + cx, k == mbw * by + bx, cy == by, cx == bx;
        }
        assert(old[i] == mb_pixel(blks, size, mbw, fx, fy));
    }
    assert(new =~= mb_plane(blks.push(blk), size, mbw, pw, ph));
}

/// The samples of a decoded macroblock: luma, U, V.
pub type MbOut = (Seq<u8>, Seq<u8>, Seq<u8>);

/// The luma blocks of decoded macroblocks.
pub open spec fn lumas(m: Seq<MbOut>) -> Seq<Seq<u8>> {
    m.map_values(|x: MbOut| x.0)
}

/// The U blocks of decoded macroblocks.
pub open spec fn us(m: Seq<MbOut>) -> Seq<Seq<u8>> {
    m.map_values(|x: MbOut| x.1)
}

/// The V blocks of decoded macroblocks.
pub open spec fn vs(m: Seq<MbOut>) -> Seq<Seq<u8>> {
    m.map_values(|x: MbOut| x.2)
}

/// An output frame: width, height and the Y, U and V planes.
pub type FrameOut = (usize, usize, Seq<u8>, Seq<u8>, Seq<u8>);

/// Macroblocks per row of a picture `w` samples wide.
pub open spec fn mb_cols(w: int) -> int {
    (w + 15) / 16
}

/// The frame of a `w` by `h` picture whose first macroblocks, in raster order, are
/// `m`; the rest is mid-gray. Chroma is subsampled by two each way.
pub open spec fn slice_frame(m: Seq<MbOut>, w: usize, h: usize) -> FrameOut {
    let mbw = mb_cols(w as int);
    (w, h, mb_plane(lumas(m), 16, mbw, w as int, h as int), mb_plane(us(m), 8, mbw, (w / 2) as int, (h / 2) as int),
        mb_plane(vs(m), 8, mbw, (w / 2) as int, (h / 2) as int))
}

/// How many macroblocks a slice decodes: at most four, and no more than the picture has.
pub open spec fn mb_limit(w: int, h: int) -> int {
    let total = mb_cols(w) * mb_cols(h);
    if 4 < total { 4 } else { total }
}

/// The macroblocks of an I slice read from bit `p`, macroblock `k` of at most
/// `max`: each a type and an I macroblock, until the data or a macroblock fails.
pub open spec fn i_slice_mbs(s: Seq<u8>, p: int, k: int, max: int) -> Seq<MbOut>
    decreases max - k,
{
    if k >= max || p >= s.len() * 8 {
        Seq::empty()
    } else {
        match rd_ue(s, p) {
            None => Seq::empty(),
            Some((v, q)) => match spec_i_mb_type(v as int) {
                None => Seq::empty(),
                Some(t) => match i_mb_spec(s, q, t) {
                    None => Seq::empty(),
                    Some((l, u, vv, q2)) => seq![(l, u, vv)] + i_slice_mbs(s, q2, k + 1, max),
                },
            },
        }
    }
}

/// A P_16x16 macroblock whose displaced reference block cannot be read in full
/// (the interpolation would read past the reference or a position overflows).
pub open spec fn p_guard_stops(s: Seq<u8>, q: int, t: PMbType, rf: Option<Seq<u8>>, w: usize, h: usize,
    mb_x: usize, mb_y: usize) -> bool {
    &&& t == PMbType::P16x16
    &&& rf is Some
    &&& mvd_at(s, q) matches Some((x, y, q3)) && !inter16_ok(rf.unwrap().len() as int, w, h, x, y, mb_x, mb_y)
}

/// The macroblocks of a P slice read from bit `p`, macroblock `k` of at most `max`,
/// with reference luma `rf` of a `w` by `h` picture: each a type and a P
/// macroblock, until the data or a macroblock fails, or a P_16x16 block would read
/// outside the reference.
pub open spec fn p_slice_mbs(s: Seq<u8>, p: int, k: int, max: int, rf: Option<Seq<u8>>, w: usize, h: usize) -> Seq<MbOut>
    decreases max - k,
{
    if k >= max || p >= s.len() * 8 {
        Seq::empty()
    } else {
        let mbw = mb_cols(w as int);
        let mb_x = (k % mbw) as usize;
        let mb_y = (k / mbw) as usize;
        match rd_ue(s, p) {
            None => Seq::empty(),
            Some((v, q)) => {
                let t = spec_p_mb_type(v as int);
                if p_guard_stops(s, q, t, rf, w, h, mb_x, mb_y) {
                    Seq::empty()
                } else {
                    match p_mb_spec(s, q, t, rf, w, h, mb_x, mb_y) {
                        None => Seq::empty(),
                        Some((l, u, vv, q2)) => seq![(l, u, vv)] + p_slice_mbs(s, q2, k + 1, max, rf, w, h),
                    }
                }
            },
        }
    }
}

/// The frame counter after one more frame, wrapping at the top.
pub open spec fn next_frame_num(n: u32) -> u32 {
    if n == u32::MAX { 0 } else { (n + 1) as u32 }
}

/// The dimensions of an SPS keep the frame arithmetic in range.
pub open spec fn sps_ok(sps: Sps) -> bool {
    let w = spec_sps_width(sps);
    let h = spec_sps_height(sps);
    &&& sps_dims_in_range(sps)
    &&& w + 15 <= usize::MAX
    &&& h + 15 <= usize::MAX
    &&& w * h <= usize::MAX
    &&& mb_cols(w) * mb_cols(h) <= usize::MAX
}

/// A `w` by `h` picture whose frame arithmetic stays in range.
pub open spec fn dims_ok(w: int, h: int) -> bool {
    &&& 0 <= w && 0 <= h
    &&& w + 15 <= usize::MAX
    &&& h + 15 <= usize::MAX
    &&& w * h <= usize::MAX
    &&& mb_cols(w) * mb_cols(h) <= usize::MAX
}

/// A frame holds the given output: its size, three planes with strides `w`,
/// `w / 2`, `w / 2`, YUV 4:2:0, and no timing or audio fields.
pub open spec fn frame_is(f: Frame, o: FrameOut) -> bool {
    &&& f.width == o.0
    &&& f.height == o.1
    &&& f.planes@.len() == 3
    &&& f.planes@[0].data@ == o.2 && f.planes@[0].stride == o.0
    &&& f.planes@[1].data@ == o.3 && f.planes@[1].stride == o.0 / 2
    &&& f.planes@[2].data@ == o.4 && f.planes@[2].stride == o.0 / 2
    &&& f.pts is None
    &&& f.duration is None
    &&& f.pixel_format == Some(PixelFormat::Yuv420p)
    &&& f.sample_format is None
    &&& f.sample_rate is None
    &&& f.samples is None
    &&& f.channels is None
}

/// Sample-level lengths of a decoded I macroblock.
proof fn lemma_i_mb_lens(s: Seq<u8>, p: int, t: IMbType)
    ensures
        i_mb_spec(s, p, t) matches Some((l, u, v, q)) ==> l.len() == 256 && u.len() == 64 && v.len() == 64,
{
}

/// Sample-level lengths of a decoded P macroblock.
proof fn lemma_p_mb_lens(s: Seq<u8>, p: int, t: PMbType, rf: Option<Seq<u8>>, w: usize, h: usize, mb_x: usize, mb_y: usize)
    ensures
        p_mb_spec(s, p, t, rf, w, h, mb_x, mb_y) matches Some((l, u, v, q)) ==> l.len() == 256 && u.len() == 64 && v.len() == 64,
{
    if let PMbType::PIntra { intra_type } = t {
        lemma_i_mb_lens(s, p, intra_type);
    }
}

/// The block position of macroblock `k` fits the plane arithmetic.
proof fn lemma_mb_pos(k: int, w: int, h: int)
    requires
        dims_ok(w, h),
        0 <= k < mb_cols(w) * mb_cols(h),
    ensures
        mb_cols(w) >= 1,
        0 <= k % mb_cols(w) < mb_cols(w),
        0 <= k / mb_cols(w) < mb_cols(h),
        (k % mb_cols(w)) * 16 + 16 <= w + 15,
        (k / mb_cols(w)) * 16 + 16 <= h + 15,
        w <= 16 * mb_cols(w),
        w / 2 <= 8 * mb_cols(w),
        w > 0,
{
    let mbw = mb_cols(w);
    let mbh = mb_cols(h);
    assert(mbw >= 1) by (nonlinear_arith) requires 0 <= k < mbw * mbh, mbh >= 0, mbw >= 0;
    vstd::arithmetic::div_mod::lemma_mod_bound(k, mbw);
    vstd::arithmetic::div_mod::lemma_div_pos_is_pos(k, mbw);
    vstd::arithmetic::div_mod::lemma_multiply_divide_lt(k, mbw, mbh);
    vstd::arithmetic::div_mod::lemma_fundamental_div_mod(w + 15, 16);
    vstd::arithmetic::div_mod::lemma_fundamental_div_mod(h + 15, 16);
    assert(k / mbw < mbh) by {
        vstd::arithmetic::mul::lemma_mul_is_commutative(mbw, mbh);
    }
}

/// Place a decoded macroblock, the next in raster order, into the three planes.
fn place_mb(y_data: &mut Vec<u8>, u_data: &mut Vec<u8>, v_data: &mut Vec<u8>, mb: &MacroblockData, mb_idx: usize,
    width: usize, height: usize, Ghost(mbs): Ghost<Seq<MbOut>>)
    requires
        dims_ok(width as int, height as int),
        mb_idx == mbs.len(),
        mb_idx < mb_cols(width as int) * mb_cols(height as int),
        mb.luma@.len() == 256,
        mb.chroma_u@.len() == 64,
        mb.chroma_v@.len() == 64,
        old(y_data)@ == mb_plane(lumas(mbs), 16, mb_cols(width as int), width as int, height as int),
        old(u_data)@ == mb_plane(us(mbs), 8, mb_cols(width as int), (width / 2) as int, (height / 2) as int),
        old(v_data)@ == mb_plane(vs(mbs), 8, mb_cols(width as int), (width / 2) as int, (height / 2) as int),
    ensures
        ({
            let m2 = mbs.push((mb.luma@, mb.chroma_u@, mb.chroma_v@));
            &&& final(y_data)@ == mb_plane(lumas(m2), 16, mb_cols(width as int), width as int, height as int)
            &&& final(u_data)@ == mb_plane(us(m2), 8, mb_cols(width as int), (width / 2) as int, (height / 2) as int)
            &&& final(v_data)@ == mb_plane(vs(m2), 8, mb_cols(width as int), (width / 2) as int, (height / 2) as int)
        }),
{
    let ghost mbw = mb_cols(width as int);
    proof {
        lemma_mb_pos(mb_idx as int, width as int, height as int);
        assert((width / 2) * (height / 2) <= width * height) by (nonlinear_arith);
    }
    let mb_width = (width + 15) / 16;
    let mb_y = mb_idx / mb_width;
    let mb_x = mb_idx % mb_width;
    let ghost oy = y_data@;
    let ghost ou = u_data@;
    let ghost ov = v_data@;
    place_block(y_data, &mb.luma, 16, mb_x, mb_y, width, height);
    place_block(u_data, &mb.chroma_u, 8, mb_x, mb_y, width / 2, height / 2);
    place_block(v_data, &mb.chroma_v, 8, mb_x, mb_y, width / 2, height / 2);
    proof {
        let m2 = mbs.push((mb.luma@, mb.chroma_u@, mb.chroma_v@));
        assert(lumas(m2) =~= lumas(mbs).push(mb.luma@));
        assert(us(m2) =~= us(mbs).push(mb.chroma_u@));
        assert(vs(m2) =~= vs(mbs).push(mb.chroma_v@));
        lemma_place_plane(oy, y_data@, lumas(mbs), mb.luma@, 16, mbw, width as int, height as int);
        lemma_place_plane(ou, u_data@, us(mbs), mb.chroma_u@, 8, mbw, (width / 2) as int, (height / 2) as int);
        lemma_place_plane(ov, v_data@, vs(mbs), mb.chroma_v@, 8, mbw, (width / 2) as int, (height / 2) as int);
    }
}

/// A frame of three planes, YUV 4:2:0, without timing.
fn yuv_frame(y_data: Vec<u8>, u_data: Vec<u8>, v_data: Vec<u8>, width: usize, height: usize) -> (f: Frame)
    ensures
        frame_is(f, (width, height, y_data@, u_data@, v_data@)),
{
    let y_plane = Plane { data: y_data, stride: width };
    let u_plane = Plane { data: u_data, stride: width / 2 };
    let v_plane = Plane { data: v_data, stride: width / 2 };
    let mut planes: Vec<Plane> = Vec::new();
    planes.push(y_plane);
    planes.push(u_plane);
    planes.push(v_plane);
    Frame {
        planes,
        pts: None,
        duration: None,
        width,
        height,
        pixel_format: Some(PixelFormat::Yuv420p),
        sample_format: None,
        sample_rate: None,
        samples: None,
        channels: None,
    }
}

/// A plane with no decoded blocks is mid-gray.
proof fn lemma_gray_plane(blks: Seq<Seq<u8>>, size: int, mbw: int, pw: int, ph: int)
    requires
        blks.len() == 0,
        size >= 1,
        mbw >= 0,
        pw >= 0,
        ph >= 0,
    ensures
        mb_plane(blks, size, mbw, pw, ph) == Seq::new((pw * ph) as nat, |i: int| 128u8),
{
    assert forall|i: int| 0 <= i < pw * ph implies #[trigger] mb_plane(blks, size, mbw, pw, ph)[i] == 128u8 by {
        assert(pw > 0) by (nonlinear_arith) requires 0 <= i < pw * ph, pw >= 0, ph >= 0;
        vstd::arithmetic::div_mod::lemma_div_pos_is_pos(i, pw);
        vstd::arithmetic::div_mod::lemma_mod_bound(i, pw);
        vstd::arithmetic::div_mod::lemma_div_pos_is_pos(i / pw, size);
        vstd::arithmetic::div_mod::lemma_div_pos_is_pos(i % pw, size);
        assert(((i / pw) / size) * mbw >= 0) by (nonlinear_arith) requires (i / pw) / size >= 0, mbw >= 0;
    }
    assert(mb_plane(blks, size, mbw, pw, ph) =~= Seq::new((pw * ph) as nat, |i: int| 128u8));
}

/// Mid-gray planes of a `width` by `height` picture.
fn gray_planes(width: usize, height: usize) -> (r: (Vec<u8>, Vec<u8>, Vec<u8>))
    requires
        dims_ok(width as int, height as int),
    ensures
        r.0@ == mb_plane(lumas(Seq::empty()), 16, mb_cols(width as int), width as int, height as int),
        r.1@ == mb_plane(us(Seq::empty()), 8, mb_cols(width as int), (width / 2) as int, (height / 2) as int),
        r.2@ == mb_plane(vs(Seq::empty()), 8, mb_cols(width as int), (width / 2) as int, (height / 2) as int),
{
    proof {
        assert((width / 2) * (height / 2) <= width * height) by (nonlinear_arith);
    }
    let y_size = width * height;
    let uv_size = (width / 2) * (height / 2);
    let y_data = vec![128u8; y_size];
    let u_data = vec![128u8; uv_size];
    let v_data = vec![128u8; uv_size];
    proof {
        lemma_gray_plane(lumas(Seq::empty()), 16, mb_cols(width as int), width as int, height as int);
        lemma_gray_plane(us(Seq::empty()), 8, mb_cols(width as int), (width / 2) as int, (height / 2) as int);
        lemma_gray_plane(vs(Seq::empty()), 8, mb_cols(width as int), (width / 2) as int, (height / 2) as int);
    }
    assert(y_data@ =~= Seq::new((width * height) as nat, |i: int| 128u8));
    assert(u_data@ =~= Seq::new(((width / 2) * (height / 2)) as nat, |i: int| 128u8));
    assert(v_data@ =~= Seq::new(((width / 2) * (height / 2)) as nat, |i: int| 128u8));
    (y_data, u_data, v_data)
}

/// A reference picture: the frame and its frame number.
struct ReferencePicture {
    frame: Frame,
    frame_num: u32,
    is_reference: bool,
}

/// The decoder state: parameter sets by id, the active pair, the reference luma
/// plane and the frame counter.
pub type DecState = (Map<u32, Sps>, Map<u32, Pps>, Option<Sps>, Option<Pps>, Option<Seq<u8>>, u32);

/// H.264 decoder.
pub struct H264Decoder {
    pub sps: HashMap<u32, Sps>,
    pub pps: HashMap<u32, Pps>,
    active_sps: Option<Sps>,
    active_pps: Option<Pps>,
    reference_frames: Vec<ReferencePicture>,
    frame_num: u32,
}

impl H264Decoder {
    /// The luma plane of the reference picture, if one is kept.
    pub closed spec fn reference(&self) -> Option<Seq<u8>> {
        if self.reference_frames@.len() == 0 {
            None
        } else {
            Some(self.reference_frames@[0].frame.planes@[0].data@)
        }
    }

    /// The abstract state of the decoder.
    pub closed spec fn state(&self) -> DecState {
        (self.sps@, self.pps@, self.active_sps, self.active_pps, self.reference(), self.frame_num)
    }

    /// Every stored and active SPS has dimensions in range, and at most one
    /// reference picture with planes is kept.
    pub closed spec fn wf(&self) -> bool {
        &&& forall|id: u32| self.sps@.contains_key(id) ==> #[trigger] sps_ok(self.sps@[id])
        &&& self.active_sps matches Some(a) ==> sps_ok(a)
        &&& self.reference_frames@.len() <= 1
        &&& forall|i: int| 0 <= i < self.reference_frames@.len() ==> #[trigger] self.reference_frames@[i].frame.planes@.len() >= 1
    }

    /// A decoder with no parameter sets and no reference picture.
    pub fn new() -> (d: H264Decoder)
        ensures
            d.wf(),
            d.state() == (Map::<u32, Sps>::empty(), Map::<u32, Pps>::empty(), None::<Sps>, None::<Pps>,
                None::<Seq<u8>>, 0u32),
    {
        H264Decoder {
            sps: HashMap::new(),
            pps: HashMap::new(),
            active_sps: None,
            active_pps: None,
            reference_frames: Vec::new(),
            frame_num: 0,
        }
    }

    /// Keep `frame` as the reference picture, replacing the previous one, and count
    /// it.
    fn store_reference(&mut self, frame: &Frame)
        requires
            old(self).wf(),
            frame.planes@.len() >= 1,
        ensures
            final(self).wf(),
            final(self).state() == (old(self).sps@, old(self).pps@, old(self).active_sps, old(self).active_pps,
                Some(frame.planes@[0].data@), next_frame_num(old(self).frame_num)),
    {
        let copy = frame.clone();
        self.reference_frames.push(ReferencePicture { frame: copy, frame_num: self.frame_num, is_reference: true });
        self.frame_num = self.frame_num.wrapping_add(1);
        if self.reference_frames.len() > 1 {
            self.reference_frames.remove(0);
        }
        proof {
            assert(same_plane(copy.planes@[0], frame.planes@[0]));
        }
    }

    /// Decode the first macroblocks of an I slice (from the start of its data) into a
    /// frame, which becomes the reference picture.
    fn decode_i_slice(&mut self, rbsp: &[u8], _sps: &Sps, width: usize, height: usize) -> (r: Result<Option<Frame>>)
        requires
            old(self).wf(),
            dims_ok(width as int, height as int),
        ensures
            final(self).wf(),
            ({
                let o = slice_frame(i_slice_mbs(rbsp@, 0, 0, mb_limit(width as int, height as int)), width, height);
                &&& r matches Ok(Some(f)) && frame_is(f, o)
                &&& final(self).state() == (old(self).sps@, old(self).pps@, old(self).active_sps, old(self).active_pps,
                    Some(o.2), next_frame_num(old(self).frame_num))
            }),
    {
        let ghost s = rbsp@;
        let mut br = BitReader::new(rbsp);
        let mb_width = (width + 15) / 16;
        let mb_height = (height + 15) / 16;
        let total_mbs = mb_width * mb_height;
        let (mut y_data, mut u_data, mut v_data) = gray_planes(width, height);
        let max_mbs = if 4 < total_mbs { 4 } else { total_mbs };
        let ghost max = max_mbs as int;
        let ghost mut mbs: Seq<MbOut> = Seq::empty();
        assert(i_slice_mbs(s, 0, 0, max) == mbs + i_slice_mbs(s, br.pos(), 0, max));
        let mut mb_idx: usize = 0;
        while mb_idx < max_mbs
            invariant_except_break
                br.wf(),
                br.bytes() == s,
                s == rbsp@,
                dims_ok(width as int, height as int),
                mb_width == mb_cols(width as int),
                total_mbs == mb_cols(width as int) * mb_cols(height as int),
                max_mbs == max,
                max <= total_mbs,
                mb_idx <= max_mbs,
                mbs.len() == mb_idx,
                i_slice_mbs(s, 0, 0, max) == mbs + i_slice_mbs(s, br.pos(), mb_idx as int, max),
                y_data@ == mb_plane(lumas(mbs), 16, mb_cols(width as int), width as int, height as int),
                u_data@ == mb_plane(us(mbs), 8, mb_cols(width as int), (width / 2) as int, (height / 2) as int),
                v_data@ == mb_plane(vs(mbs), 8, mb_cols(width as int), (width / 2) as int, (height / 2) as int),
            ensures
                i_slice_mbs(s, 0, 0, max) == mbs,
                y_data@ == mb_plane(lumas(mbs), 16, mb_cols(width as int), width as int, height as int),
                u_data@ == mb_plane(us(mbs), 8, mb_cols(width as int), (width / 2) as int, (height / 2) as int),
                v_data@ == mb_plane(vs(mbs), 8, mb_cols(width as int), (width / 2) as int, (height / 2) as int),
            decreases max_mbs - mb_idx,
        {
            let ghost p = br.pos();
            if !br.more_rbsp_data() {
                assert(mbs + i_slice_mbs(s, p, mb_idx as int, max) =~= mbs);
                break;
            }
            let mb_type = match decode_mb_type_i(&mut br) {
                Ok(t) => t,
                Err(_) => {
                    assert(mbs + i_slice_mbs(s, p, mb_idx as int, max) =~= mbs);
                    break;
                },
            };
            let ghost q = br.pos();
            proof { lemma_i_mb_lens(s, q, mb_type); }
            let mb_data = match decode_i_macroblock(&mut br, mb_type, true) {
                Ok(d) => d,
                Err(_) => {
                    assert(mbs + i_slice_mbs(s, p, mb_idx as int, max) =~= mbs);
                    break;
                },
            };
            place_mb(&mut y_data, &mut u_data, &mut v_data, &mb_data, mb_idx, width, height, Ghost(mbs));
            proof {
                let m = (mb_data.luma@, mb_data.chroma_u@, mb_data.chroma_v@);
                assert(i_slice_mbs(s, p, mb_idx as int, max) == seq![m] + i_slice_mbs(s, br.pos(), mb_idx + 1, max));
                assert(mbs + (seq![m] + i_slice_mbs(s, br.pos(), mb_idx + 1, max))
                    =~= mbs.push(m) + i_slice_mbs(s, br.pos(), mb_idx + 1, max));
                mbs = mbs.push(m);
            }
            mb_idx += 1;
        }
        proof {
            if mb_idx == max_mbs {
                assert(mbs + i_slice_mbs(s, br.pos(), mb_idx as int, max) =~= mbs);
            }
        }
        let frame = yuv_frame(y_data, u_data, v_data, width, height);
        self.store_reference(&frame);
        Ok(Some(frame))
    }
}

/// Whether a 16x16 block at macroblock position `(bx, by)` moved by `(mv_x, mv_y)`
/// can be predicted from a reference of `ref_len` samples in rows of `width`.
fn inter16_fits(ref_len: usize, width: usize, height: usize, mv_x: i32, mv_y: i32, bx: usize, by: usize) -> (b: bool)
    ensures
        b == inter16_ok(ref_len as int, width, height, mv_x as int, mv_y as int, bx, by),
{
    let bx4: i128 = bx as i128 * 4;
    let by4: i128 = by as i128 * 4;
    let rx: i128 = bx4 + mv_x as i128;
    let ry: i128 = by4 + mv_y as i128;
    if rx > 0x7fff_ffff || ry > 0x7fff_ffff || bx4 > 0x7fff_ffff || by4 > 0x7fff_ffff {
        return false;
    }
    if rx < 0 || ry < 0 {
        return true;
    }
    let qx = rx as i32;
    let qy = ry as i32;
    let xi = (qx / 4) as usize;
    let yi = (qy / 4) as usize;
    assert(xi == qpel_int(qx) && yi == qpel_int(qy));
    if xi > usize::MAX - 16 || yi > usize::MAX - 16 {
        return false;
    }
    if xi + 16 > width || yi + 16 > height {
        return true;
    }
    let xf = (qx % 4) as usize;
    let yf = (qy % 4) as usize;
    assert(xf == (qx as int) % 4 && yf == (qy as int) % 4);
    let reach_x: u128 = if (xf == 0 && yf == 0) || (xf == 0 && yf == 2) { 0 } else { 1 };
    let reach_y: u128 = if (xf == 0 && yf == 0) || (xf == 2 && yf == 0) { 0 } else { 1 };
    assert(reach_x == reach(xf as int, yf as int).0 && reach_y == reach(xf as int, yf as int).1);
    let yl = yi as u128 + 15;
    let w = width as u128;
    let xl = xi as u128;
    assert(yl * w + xl <= 0xffff_ffff_ffff_ffff_ffff_ffff_ffff_ffffu128) by (nonlinear_arith)
        requires yl <= 0xffff_ffff_ffff_ffffu128, w <= 0xffff_ffff_ffff_ffffu128, xl <= 0xffff_ffff_ffff_ffffu128;
    let row: u128 = yl * w + xl;
    if row > usize::MAX as u128 {
        return false;
    }
    let extra: u128 = if reach_y == 1 { w } else { 0 };
    let last: u128 = row + 15 + extra + reach_x;
    last < ref_len as u128
}

impl H264Decoder {
    /// Decode the first macroblocks of a P slice (from the start of its data) into a
    /// frame, predicting from the reference picture, which the frame then replaces.
    fn decode_p_slice(&mut self, rbsp: &[u8], _sps: &Sps, width: usize, height: usize) -> (r: Result<Option<Frame>>)
        requires
            old(self).wf(),
            dims_ok(width as int, height as int),
        ensures
            final(self).wf(),
            ({
                let o = slice_frame(p_slice_mbs(rbsp@, 0, 0, mb_limit(width as int, height as int), old(self).reference(),
                    width, height), width, height);
                &&& r matches Ok(Some(f)) && frame_is(f, o)
                &&& final(self).state() == (old(self).sps@, old(self).pps@, old(self).active_sps, old(self).active_pps,
                    Some(o.2), next_frame_num(old(self).frame_num))
            }),
    {
        let ghost s = rbsp@;
        let ghost rf = self.reference();
        let mut br = BitReader::new(rbsp);
        let mb_width = (width + 15) / 16;
        let mb_height = (height + 15) / 16;
        let total_mbs = mb_width * mb_height;
        let (mut y_data, mut u_data, mut v_data) = gray_planes(width, height);
        let ref_frame_data: Option<&[u8]> = if self.reference_frames.len() > 0 {
            Some(self.reference_frames[0].frame.planes[0].data.as_slice())
        } else {
            None
        };
        assert(rf == match ref_frame_data { Some(d) => Some(d@), None => None::<Seq<u8>> });
        let max_mbs = if 4 < total_mbs { 4 } else { total_mbs };
        let ghost max = max_mbs as int;
        let ghost mut mbs: Seq<MbOut> = Seq::empty();
        assert(p_slice_mbs(s, 0, 0, max, rf, width, height) == mbs + p_slice_mbs(s, br.pos(), 0, max, rf, width, height));
        let mut mb_idx: usize = 0;
        while mb_idx < max_mbs
            invariant_except_break
                br.wf(),
                br.bytes() == s,
                s == rbsp@,
                rf == match ref_frame_data { Some(d) => Some(d@), None => None::<Seq<u8>> },
                dims_ok(width as int, height as int),
                mb_width == mb_cols(width as int),
                total_mbs == mb_cols(width as int) * mb_cols(height as int),
                max_mbs == max,
                max <= total_mbs,
                mb_idx <= max_mbs,
                mbs.len() == mb_idx,
                p_slice_mbs(s, 0, 0, max, rf, width, height) == mbs + p_slice_mbs(s, br.pos(), mb_idx as int, max, rf, width, height),
                y_data@ == mb_plane(lumas(mbs), 16, mb_cols(width as int), width as int, height as int),
                u_data@ == mb_plane(us(mbs), 8, mb_cols(width as int), (width / 2) as int, (height / 2) as int),
                v_data@ == mb_plane(vs(mbs), 8, mb_cols(width as int), (width / 2) as int, (height / 2) as int),
            ensures
                p_slice_mbs(s, 0, 0, max, rf, width, height) == mbs,
                y_data@ == mb_plane(lumas(mbs), 16, mb_cols(width as int), width as int, height as int),
                u_data@ == mb_plane(us(mbs), 8, mb_cols(width as int), (width / 2) as int, (height / 2) as int),
                v_data@ == mb_plane(vs(mbs), 8, mb_cols(width as int), (width / 2) as int, (height / 2) as int),
            decreases max_mbs - mb_idx,
        {
            let ghost p = br.pos();
            if !br.more_rbsp_data() {
                assert(mbs + p_slice_mbs(s, p, mb_idx as int, max, rf, width, height) =~= mbs);
                break;
            }
            proof { lemma_mb_pos(mb_idx as int, width as int, height as int); }
            let mb_y = mb_idx / mb_width;
            let mb_x = mb_idx % mb_width;
            let mb_type = match decode_mb_type_p(&mut br) {
                Ok(t) => t,
                Err(_) => {
                    assert(mbs + p_slice_mbs(s, p, mb_idx as int, max, rf, width, height) =~= mbs);
                    break;
                },
            };
            let ghost q = br.pos();
            if mb_type == PMbType::P16x16 {
                if let Some(rd) = ref_frame_data {
                    let mut peek = br;
                    match parse_mvd(&mut peek) {
                        Ok((mx, my)) => {
                            if !inter16_fits(rd.len(), width, height, mx, my, mb_x, mb_y) {
                                assert(p_guard_stops(s, q, mb_type, rf, width, height, mb_x, mb_y));
                                assert(mbs + p_slice_mbs(s, p, mb_idx as int, max, rf, width, height) =~= mbs);
                                break;
                            }
                        },
                        Err(_) => {},
                    }
                }
            }
            assert(!p_guard_stops(s, q, mb_type, rf, width, height, mb_x, mb_y));
            proof { lemma_p_mb_lens(s, q, mb_type, rf, width, height, mb_x, mb_y); }
            let mb_data = match decode_p_macroblock(&mut br, mb_type, ref_frame_data, width, height, mb_x, mb_y) {
                Ok(d) => d,
                Err(_) => {
                    assert(mbs + p_slice_mbs(s, p, mb_idx as int, max, rf, width, height) =~= mbs);
                    break;
                },
            };
            place_mb(&mut y_data, &mut u_data, &mut v_data, &mb_data, mb_idx, width, height, Ghost(mbs));
            proof {
                let m = (mb_data.luma@, mb_data.chroma_u@, mb_data.chroma_v@);
                assert(p_slice_mbs(s, p, mb_idx as int, max, rf, width, height)
                    == seq![m] + p_slice_mbs(s, br.pos(), mb_idx + 1, max, rf, width, height));
                assert(mbs + (seq![m] + p_slice_mbs(s, br.pos(), mb_idx + 1, max, rf, width, height))
                    =~= mbs.push(m) + p_slice_mbs(s, br.pos(), mb_idx + 1, max, rf, width, height));
                mbs = mbs.push(m);
            }
            mb_idx += 1;
        }
        proof {
            if mb_idx == max_mbs {
                assert(mbs + p_slice_mbs(s, br.pos(), mb_idx as int, max, rf, width, height) =~= mbs);
            }
        }
        let frame = yuv_frame(y_data, u_data, v_data, width, height);
        self.store_reference(&frame);
        Ok(Some(frame))
    }
}

/// The state and frame after a slice NAL unit with payload `rbsp`: the header gives
/// the slice type and PPS id; the PPS and its SPS must be stored. They become
/// active; I and P slices decode into a frame that becomes the reference, other
/// slice types give a mid-gray frame and leave the reference as it is.
pub open spec fn slice_step(st: DecState, rbsp: Seq<u8>) -> Option<(DecState, FrameOut)> {
    match slice_kind(rbsp) {
        None => None,
        Some((t, pps_id)) => if !st.1.contains_key(pps_id) {
            None
        } else {
            let pps = st.1[pps_id];
            if !st.0.contains_key(pps.seq_parameter_set_id) {
                None
            } else {
                let sps = st.0[pps.seq_parameter_set_id];
                let w = spec_sps_width(sps) as usize;
                let h = spec_sps_height(sps) as usize;
                let max = mb_limit(w as int, h as int);
                if t == SliceType::I {
                    let f = slice_frame(i_slice_mbs(rbsp, 0, 0, max), w, h);
                    Some(((st.0, st.1, Some(sps), Some(pps), Some(f.2), next_frame_num(st.5)), f))
                } else if t == SliceType::P {
                    let f = slice_frame(p_slice_mbs(rbsp, 0, 0, max, st.4, w, h), w, h);
                    Some(((st.0, st.1, Some(sps), Some(pps), Some(f.2), next_frame_num(st.5)), f))
                } else {
                    Some(((st.0, st.1, Some(sps), Some(pps), st.4, st.5), slice_frame(Seq::empty(), w, h)))
                }
            }
        },
    }
}

/// The state after one NAL unit of type `t` with payload `rbsp`, and the frame it
/// gives: an SPS or PPS that parses is stored by id; an IDR or non-IDR slice decodes
/// into a frame; other units change nothing. `None` when the unit fails.
pub open spec fn unit_step(st: DecState, t: NalType, rbsp: Seq<u8>) -> Option<(DecState, Option<FrameOut>)> {
    if t == NalType::Sps {
        match spec_sps(rbsp) {
            None => None,
            Some(sps) => Some(((st.0.insert(sps.seq_parameter_set_id, sps), st.1, st.2, st.3, st.4, st.5), None)),
        }
    } else if t == NalType::Pps {
        match spec_pps(rbsp) {
            None => None,
            Some(pps) => Some(((st.0, st.1.insert(pps.pic_parameter_set_id, pps), st.2, st.3, st.4, st.5), None)),
        }
    } else if t == NalType::CodedSliceIdr || t == NalType::CodedSliceNonIdr {
        match slice_step(st, rbsp) {
            None => None,
            Some((st2, f)) => Some((st2, Some(f))),
        }
    } else {
        Some((st, None))
    }
}

/// Decoding NAL units from the `k`-th on, unit by unit: the final state and the
/// frames, or `None` at the first unit that fails.
pub open spec fn decode_units(st: DecState, units: Seq<(u8, Seq<u8>)>, k: int) -> Option<(DecState, Seq<FrameOut>)>
    decreases units.len() - k,
{
    if k < 0 || k >= units.len() {
        Some((st, Seq::empty()))
    } else {
        match unit_step(st, spec_nal_type(units[k].0 % 32), unescape(units[k].1)) {
            None => None,
            Some((st2, fo)) => match decode_units(st2, units, k + 1) {
                None => None,
                Some((st3, fs)) => Some((st3, match fo { Some(f) => seq![f] + fs, None => fs })),
            },
        }
    }
}

/// The NAL units of an Annex B stream: header byte and payload.
pub open spec fn stream_units(data: Seq<u8>) -> Seq<(u8, Seq<u8>)> {
    nal_payloads(data, scan_start_codes(data, 0), 0)
}

/// A stream the decoder accepts without overflow: each SPS that parses has
/// dimensions in range, and each PPS keeps its initial QP within `i32`.
pub open spec fn stream_ok(data: Seq<u8>) -> bool {
    let units = stream_units(data);
    forall|k: int| 0 <= k < units.len() ==> {
        let t = spec_nal_type(#[trigger] units[k].0 % 32);
        let rbsp = unescape(units[k].1);
        &&& t == NalType::Sps ==> (spec_sps(rbsp) matches Some(x) ==> sps_ok(x))
        &&& t == NalType::Pps ==> !pps_qp_overflows(rbsp)
    }
}

/// `frames` hold the outputs `fs`, one for one.
pub open spec fn frames_are(frames: Seq<Frame>, fs: Seq<FrameOut>) -> bool {
    &&& frames.len() == fs.len()
    &&& forall|i: int| 0 <= i < frames.len() ==> #[trigger] frame_is(frames[i], fs[i])
}

impl H264Decoder {
    /// Decode one slice NAL unit into a frame.
    fn decode_slice(&mut self, nal: &NalUnit) -> (r: Result<Option<Frame>>)
        requires
            old(self).wf(),
        ensures
            final(self).wf(),
            match slice_step(old(self).state(), nal.rbsp@) {
                Some((st, f)) => (r matches Ok(Some(fr)) && frame_is(fr, f)) && final(self).state() == st,
                None => r is Err && final(self).state() == old(self).state(),
            },
            slice_kind(nal.rbsp@) is Some && slice_step(old(self).state(), nal.rbsp@) is None ==>
                (r matches Err(e) && e.is_invalid()),
    {
        broadcast use vstd::std_specs::hash::group_hash_axioms;
        let hdr = SliceHeader::parse(nal.rbsp.as_slice());
        proof {
            lemma_slice_kind(nal.rbsp@, if hdr is Ok { Some(hdr->Ok_0) } else { None });
        }
        let slice_header = hdr?;
        let pps = match self.pps.get(&slice_header.pic_parameter_set_id) {
            Some(p) => *p,
            None => {
                return Err(Error::invalid("H.264", "PPS not found"));
            },
        };
        let sps = match self.sps.get(&pps.seq_parameter_set_id) {
            Some(x) => *x,
            None => {
                return Err(Error::invalid("H.264", "SPS not found"));
            },
        };
        assert(sps_ok(sps));
        self.active_pps = Some(pps);
        self.active_sps = Some(sps);
        let width = sps.width();
        let height = sps.height();
        match slice_header.slice_type {
            SliceType::I => self.decode_i_slice(nal.rbsp.as_slice(), &sps, width, height),
            SliceType::P => self.decode_p_slice(nal.rbsp.as_slice(), &sps, width, height),
            _ => {
                let (y_data, u_data, v_data) = gray_planes(width, height);
                Ok(Some(yuv_frame(y_data, u_data, v_data, width, height)))
            },
        }
    }

    /// Handle one NAL unit: store a parameter set, or decode a slice into a frame.
    fn decode_unit(&mut self, nal: &NalUnit) -> (r: Result<Option<Frame>>)
        requires
            old(self).wf(),
            nal.header.nal_unit_type == NalType::Sps ==> (spec_sps(nal.rbsp@) matches Some(x) ==> sps_ok(x)),
            nal.header.nal_unit_type == NalType::Pps ==> !pps_qp_overflows(nal.rbsp@),
        ensures
            final(self).wf(),
            match unit_step(old(self).state(), nal.header.nal_unit_type, nal.rbsp@) {
                Some((st, fo)) => final(self).state() == st && (r matches Ok(x) && match fo {
                    Some(f) => x matches Some(fr) && frame_is(fr, f),
                    None => x is None,
                }),
                None => r is Err,
            },
    {
        broadcast use vstd::std_specs::hash::group_hash_axioms;
        match nal.header.nal_unit_type {
            NalType::Sps => {
                let sps = Sps::parse(nal.rbsp.as_slice())?;
                let sps_id = sps.seq_parameter_set_id;
                self.sps.insert(sps_id, sps);
                Ok(None)
            },
            NalType::Pps => {
                let pps = Pps::parse(nal.rbsp.as_slice())?;
                let pps_id = pps.pic_parameter_set_id;
                self.pps.insert(pps_id, pps);
                Ok(None)
            },
            NalType::CodedSliceIdr | NalType::CodedSliceNonIdr => self.decode_slice(nal),
            _ => Ok(None),
        }
    }

    /// Decode the NAL units of an Annex B packet: parameter sets are stored, and each
    /// I, P or other slice gives a frame.
    #[verifier::rlimit(80)]
    #[verifier::spinoff_prover]
    pub fn decode(&mut self, data: &[u8]) -> (r: Result<Vec<Frame>>)
        requires
            old(self).wf(),
            stream_ok(data@),
        ensures
            final(self).wf(),
            match decode_units(old(self).state(), stream_units(data@), 0) {
                Some((st, fs)) => (r matches Ok(frames) && frames_are(frames@, fs)) && final(self).state() == st,
                None => r is Err,
            },
    {
        let ghost units = stream_units(data@);
        let ghost st0 = self.state();
        let nal_units = extract_nal_units(data)?;
        let mut frames: Vec<Frame> = Vec::new();
        let ghost mut done: Seq<FrameOut> = Seq::empty();
        let mut i: usize = 0;
        while i < nal_units.len()
            invariant
                self.wf(),
                stream_ok(data@),
                units == stream_units(data@),
                st0 == old(self).state(),
                nal_units@.len() == units.len(),
                forall|k: int| 0 <= k < nal_units@.len() ==> {
                    let b = #[trigger] units[k].0;
                    &&& nal_units@[k].header.nal_unit_type == spec_nal_type(b % 32)
                    &&& nal_units@[k].rbsp@ == unescape(units[k].1)
                },
                i <= nal_units@.len(),
                frames_are(frames@, done),
                decode_units(st0, units, 0) == match decode_units(self.state(), units, i as int) {
                    None => None,
                    Some((stf, fs)) => Some((stf, done + fs)),
                },
            decreases nal_units@.len() - i,
        {
            let ghost k = i as int;
            let ghost before = self.state();
            let fo = self.decode_unit(&nal_units[i])?;
            proof {
                let (st2, sfo) = unit_step(before, spec_nal_type(units[k].0 % 32), unescape(units[k].1)).unwrap();
                assert(self.state() == st2);
                if let Some(f) = sfo {
                    let rest = decode_units(st2, units, k + 1);
                    if rest is Some {
                        assert(done.push(f) + rest.unwrap().1 =~= done + (seq![f] + rest.unwrap().1));
                    }
                }
            }
            if let Some(frame) = fo {
                frames.push(frame);
                proof {
                    done = done.push(unit_step(before, spec_nal_type(units[k].0 % 32), unescape(units[k].1)).unwrap().1.unwrap());
                }
            }
            i += 1;
        }
        proof {
            assert(done + Seq::<FrameOut>::empty() =~= done);
        }
        Ok(frames)
    }

    /// The picture size of the active SPS, once a slice has activated one.
    pub fn get_dimensions(&self) -> (r: Option<(usize, usize)>)
        requires
            self.wf(),
        ensures
            r == match self.state().2 {
                Some(sps) => Some((spec_sps_width(sps) as usize, spec_sps_height(sps) as usize)),
                None => None,
            },
    {
        match &self.active_sps {
            Some(sps) => Some((sps.width(), sps.height())),
            None => None,
        }
    }
}

impl Default for H264Decoder {
    fn default() -> (d: H264Decoder)
        ensures
            d.wf(),
            d.state() == (Map::<u32, Sps>::empty(), Map::<u32, Pps>::empty(), None::<Sps>, None::<Pps>,
                None::<Seq<u8>>, 0u32),
    {
        H264Decoder::new()
    }
}

/// Whether an SPS has dimensions the decoder can handle without overflow.
pub fn sps_in_range(sps: &Sps) -> (b: bool)
    ensures
        b == sps_ok(*sps),
{
    let unit64: u64 = if sps.chroma_format_idc == 1 { 2 } else { 1 };
    let mult64: u64 = if sps.frame_mbs_only_flag { 1 } else { 2 };
    let wm = sps.pic_width_in_mbs as u64 * 16;
    let hm = sps.pic_height_in_map_units as u64 * mult64 * 16;
    let cx = (sps.frame_crop_left_offset as u64 + sps.frame_crop_right_offset as u64) * unit64;
    let cy = (sps.frame_crop_top_offset as u64 + sps.frame_crop_bottom_offset as u64) * unit64 * mult64;
    if wm > 0xffff_ffff || hm > 0xffff_ffff {
        return false;
    }
    if sps.frame_cropping_flag && (cx > 0xffff_ffff || cy > 0xffff_ffff) {
        return false;
    }
    let unit: i64 = if sps.chroma_format_idc == 1 { 2 } else { 1 };
    let w: i64 = if sps.frame_cropping_flag {
        sps.pic_width_in_mbs as i64 * 16 - (sps.frame_crop_left_offset as i64 + sps.frame_crop_right_offset as i64) * unit
    } else {
        sps.pic_width_in_mbs as i64 * 16
    };
    let hmaps: i64 = if sps.frame_mbs_only_flag { sps.pic_height_in_map_units as i64 } else { sps.pic_height_in_map_units as i64 * 2 };
    let mult: i64 = if sps.frame_mbs_only_flag { 1 } else { 2 };
    let h: i64 = if sps.frame_cropping_flag {
        hmaps * 16 - (sps.frame_crop_top_offset as i64 + sps.frame_crop_bottom_offset as i64) * unit * mult
    } else {
        hmaps * 16
    };
    assert(w == spec_sps_width(*sps) && h == spec_sps_height(*sps));
    if w < 0 || h < 0 {
        return false;
    }
    let wu = w as u128;
    let hu = h as u128;
    assert(wu * hu <= 0xffff_ffff_ffff_ffff * 0xffff_ffff_ffff_ffffu128) by (nonlinear_arith)
        requires wu <= 0xffff_ffff_ffff_ffffu128, hu <= 0xffff_ffff_ffff_ffffu128;
    let mw = (wu + 15) / 16;
    let mh = (hu + 15) / 16;
    assert(mw * mh <= 0xffff_ffff_ffff_ffff * 0xffff_ffff_ffff_ffffu128) by (nonlinear_arith)
        requires mw <= 0xffff_ffff_ffff_ffffu128, mh <= 0xffff_ffff_ffff_ffffu128;
    let max = usize::MAX as u128;
    wu + 15 <= max && hu + 15 <= max && wu * hu <= max && mw * mh <= max
}

/// Whether the decoder accepts a stream: every SPS that parses has dimensions in
/// range and no PPS overflows its QP fields.
pub fn stream_decodable(data: &[u8]) -> (b: bool)
    ensures
        b == stream_ok(data@),
{
    let ghost units = stream_units(data@);
    let nal_units = match extract_nal_units(data) {
        Ok(u) => u,
        Err(_) => return true,
    };
    let mut i: usize = 0;
    while i < nal_units.len()
        invariant
            units == stream_units(data@),
            nal_units@.len() == units.len(),
            forall|k: int| 0 <= k < nal_units@.len() ==> {
                let b = #[trigger] units[k].0;
                &&& nal_units@[k].header.nal_unit_type == spec_nal_type(b % 32)
                &&& nal_units@[k].rbsp@ == unescape(units[k].1)
            },
            i <= nal_units@.len(),
            forall|k: int| 0 <= k < i ==> {
                let t = spec_nal_type(#[trigger] units[k].0 % 32);
                let rbsp = unescape(units[k].1);
                &&& t == NalType::Sps ==> (spec_sps(rbsp) matches Some(x) ==> sps_ok(x))
                &&& t == NalType::Pps ==> !pps_qp_overflows(rbsp)
            },
        decreases nal_units@.len() - i,
    {
        let ghost k = i as int;
        assert(nal_units@[k].header.nal_unit_type == spec_nal_type(units[k].0 % 32));
        let nal = &nal_units[i];
        match nal.header.nal_unit_type {
            NalType::Sps => {
                if let Ok(sps) = Sps::parse(nal.rbsp.as_slice()) {
                    if !sps_in_range(&sps) {
                        return false;
                    }
                }
            },
            NalType::Pps => {
                if !pps_qp_in_range(nal.rbsp.as_slice()) {
                    return false;
                }
            },
            _ => {},
        }
        i += 1;
    }
    true
}

} // verus!
