//! Slice groups (flexible macroblock ordering): the map from macroblock address to
//! slice group for each map type.
use vstd::prelude::*;
use crate::error::{Error, Result};

verus! {

/// Slice group map types.
#[derive(Debug, Clone, Copy, PartialEq, Eq, Structural)]
pub enum SliceGroupMapType {
    Interleaved,
    Dispersed,
    ForegroundWithLeftOver,
    BoxOut,
    RasterScan,
    Wipe,
    Explicit,
}

impl SliceGroupMapType {
    /// The map type of `slice_group_map_type` 0 to 6.
    pub fn from_u8(value: u8) -> (r: Result<SliceGroupMapType>)
        ensures
            value == 0 <==> r == Ok::<SliceGroupMapType, Error>(SliceGroupMapType::Interleaved),
            value == 1 <==> r == Ok::<SliceGroupMapType, Error>(SliceGroupMapType::Dispersed),
            value == 2 <==> r == Ok::<SliceGroupMapType, Error>(SliceGroupMapType::ForegroundWithLeftOver),
            value == 3 <==> r == Ok::<SliceGroupMapType, Error>(SliceGroupMapType::BoxOut),
            value == 4 <==> r == Ok::<SliceGroupMapType, Error>(SliceGroupMapType::RasterScan),
            value == 5 <==> r == Ok::<SliceGroupMapType, Error>(SliceGroupMapType::Wipe),
            value == 6 <==> r == Ok::<SliceGroupMapType, Error>(SliceGroupMapType::Explicit),
            value > 6 <==> (r matches Err(e) && e.is_invalid()),
    {
        match value {
            0 => Ok(SliceGroupMapType::Interleaved),
            1 => Ok(SliceGroupMapType::Dispersed),
            2 => Ok(SliceGroupMapType::ForegroundWithLeftOver),
            3 => Ok(SliceGroupMapType::BoxOut),
            4 => Ok(SliceGroupMapType::RasterScan),
            5 => Ok(SliceGroupMapType::Wipe),
            6 => Ok(SliceGroupMapType::Explicit),
            _ => Err(Error::invalid("FMO", "Invalid slice_group_map_type")),
        }
    }
}

/// Slice group parameters of a PPS.
#[derive(Debug, Clone)]
pub struct SliceGroupParams {
    /// Number of slice groups.
    pub num_slice_groups: usize,
    pub map_type: SliceGroupMapType,
    /// Run lengths, interleaved type.
    pub run_length: Vec<u32>,
    /// Top-left corners, foreground type.
    pub top_left: Vec<(u32, u32)>,
    /// Bottom-right corners, foreground type.
    pub bottom_right: Vec<(u32, u32)>,
    pub change_direction_flag: bool,
    /// Macroblocks per group, raster and wipe types.
    pub change_rate: u32,
    /// The map itself, explicit type.
    pub explicit_map: Vec<u8>,
}

impl Default for SliceGroupParams {
    fn default() -> (p: SliceGroupParams)
        ensures
            p.num_slice_groups == 1,
            p.map_type == SliceGroupMapType::Interleaved,
            p.run_length@.len() == 0,
            p.top_left@.len() == 0,
            p.bottom_right@.len() == 0,
            !p.change_direction_flag,
            p.change_rate == 0,
            p.explicit_map@.len() == 0,
    {
        SliceGroupParams {
            num_slice_groups: 1,
            map_type: SliceGroupMapType::Interleaved,
            run_length: Vec::new(),
            top_left: Vec::new(),
            bottom_right: Vec::new(),
            change_direction_flag: false,
            change_rate: 0,
            explicit_map: Vec::new(),
        }
    }
}

impl SliceGroupParams {
    /// One slice group, the defaults.
    pub fn new() -> (p: SliceGroupParams)
        ensures
            p.num_slice_groups == 1,
            p.map_type == SliceGroupMapType::Interleaved,
            p.run_length@.len() == 0,
            p.top_left@.len() == 0,
            p.bottom_right@.len() == 0,
            !p.change_direction_flag,
            p.change_rate == 0,
            p.explicit_map@.len() == 0,
    {
        SliceGroupParams::default()
    }

    /// Whether there is more than one slice group.
    pub fn is_fmo_enabled(&self) -> (b: bool)
        ensures
            b == (self.num_slice_groups > 1),
    {
        self.num_slice_groups > 1
    }
}

/// The run length of group `g`; 0 for a group without one.
pub open spec fn run_of(runs: Seq<u32>, g: int) -> int {
    if 0 <= g < runs.len() { runs[g] as int } else { 0 }
}

/// The total run length of groups `0..g`.
pub open spec fn run_prefix(runs: Seq<u32>, g: int) -> int
    decreases g,
{
    if g <= 0 { 0 } else { run_prefix(runs, g - 1) + run_of(runs, g - 1) }
}

/// The group from `g` on whose run covers position `k` of a cycle.
pub open spec fn run_group(runs: Seq<u32>, n: int, g: int, k: int) -> int
    decreases n - g,
{
    if g >= n { n } else if k < run_prefix(runs, g + 1) { g } else { run_group(runs, n, g + 1, k) }
}

/// A foreground box `g` exists: both corners are given.
pub open spec fn has_box(p: SliceGroupParams, g: int) -> bool {
    0 <= g < p.top_left@.len() && g < p.bottom_right@.len()
}

/// Address `i` is painted by box `g`: some `(x, y)` of the box has `y * w + x == i`.
pub open spec fn box_covers(p: SliceGroupParams, g: int, w: int, i: int) -> bool {
    let (tx, ty) = p.top_left@[g];
    let (bx, by) = p.bottom_right@[g];
    exists|x: int, y: int| tx <= x <= bx && ty <= y <= by && #[trigger] (y * w + x) == i
}

/// The group of address `i` after painting boxes `0..g` over the left-over group.
pub open spec fn foreground_group(p: SliceGroupParams, w: int, g: int, i: int) -> int
    decreases g,
{
    if g <= 0 {
        p.num_slice_groups - 1
    } else if has_box(p, g - 1) && box_covers(p, g - 1, w, i) {
        g - 1
    } else {
        foreground_group(p, w, g - 1, i)
    }
}

/// `|v|`.
pub open spec fn iabs(v: int) -> int {
    if v < 0 { -v } else { v }
}

/// The slice group of macroblock `i` of a `w` by `h` picture.
pub open spec fn slice_group_of(p: SliceGroupParams, w: int, h: int, i: int) -> int {
    let n = p.num_slice_groups as int;
    if n == 1 {
        0
    } else {
        match p.map_type {
            SliceGroupMapType::Interleaved =>
                (run_group(p.run_length@, n, 0, i % run_prefix(p.run_length@, n)) as u8) as int,
            SliceGroupMapType::Dispersed => (((i % w) + (i / w) * (n - 1)) % n as int) as u8 as int,
            SliceGroupMapType::ForegroundWithLeftOver => foreground_group(p, w, n - 1, i) as u8 as int,
            SliceGroupMapType::BoxOut => {
                let (cx, cy) = (w / 2, h / 2);
                if n == 2 && iabs(i % w - cx) < cx / 2 && iabs(i / w - cy) < cy / 2 { 0 } else { 1 }
            },
            SliceGroupMapType::RasterScan => {
                let q = i / (p.change_rate as int);
                if q < n - 1 { q as u8 as int } else { (n - 1) as u8 as int }
            },
            SliceGroupMapType::Wipe => {
                let pos = if p.change_direction_flag { i % w } else { i };
                let q = pos / (p.change_rate as int);
                if q < n - 1 { q as u8 as int } else { (n - 1) as u8 as int }
            },
            SliceGroupMapType::Explicit => p.explicit_map@[i] as int,
        }
    }
}

/// The parameters give a map for a `w` by `h` picture without running forever,
/// dividing by zero or overflowing.
pub open spec fn params_ok(p: SliceGroupParams, w: int, h: int) -> bool {
    let n = p.num_slice_groups as int;
    let size = w * h;
    &&& size <= usize::MAX
    &&& n != 1 && size > 0 ==> match p.map_type {
        SliceGroupMapType::Interleaved => run_prefix(p.run_length@, n) > 0,
        SliceGroupMapType::Dispersed => n >= 1 && (w - 1) + ((size - 1) / (w as int)) * (n - 1) <= usize::MAX,
        SliceGroupMapType::ForegroundWithLeftOver => true,
        SliceGroupMapType::BoxOut => w <= i32::MAX && h <= i32::MAX,
        SliceGroupMapType::RasterScan | SliceGroupMapType::Wipe => p.change_rate > 0 && n >= 1,
        SliceGroupMapType::Explicit => true,
    }
    &&& n != 1 && p.map_type == SliceGroupMapType::ForegroundWithLeftOver ==> {
        &&& n >= 1
        &&& forall|g: int| 0 <= g < n - 1 && #[trigger] has_box(p, g) ==> {
            let (tx, ty) = p.top_left@[g];
            let (bx, by) = p.bottom_right@[g];
            tx <= bx && ty <= by ==> by * w + bx <= usize::MAX
        }
    }
}

/// The map from macroblock address to slice group.
#[derive(Debug, Clone)]
pub struct MbToSliceGroupMap {
    map: Vec<u8>,
    pic_width_in_mbs: usize,
    pic_height_in_mbs: usize,
}

proof fn lemma_run_prefix_mono(runs: Seq<u32>, a: int, b: int)
    requires
        a <= b,
    ensures
        run_prefix(runs, a) <= run_prefix(runs, b),
    decreases b - a,
{
    if a < b {
        lemma_run_prefix_mono(runs, a, b - 1);
    }
}

proof fn lemma_run_group(runs: Seq<u32>, n: int, g0: int, g: int, k: int)
    requires
        0 <= g0 <= g < n,
        run_prefix(runs, g) <= k < run_prefix(runs, g + 1),
    ensures
        run_group(runs, n, g0, k) == g,
    decreases g - g0,
{
    if g0 < g {
        lemma_run_prefix_mono(runs, g0 + 1, g);
        lemma_run_group(runs, n, g0 + 1, g, k);
    }
}

proof fn lemma_mod_in_cycle(c: int, t: int, k: int)
    requires
        t > 0,
        c >= 0,
        0 <= k < t,
    ensures
        (c * t + k) % t == k,
{
    vstd::arithmetic::div_mod::lemma_fundamental_div_mod_converse(c * t + k, t, c, k);
}

impl MbToSliceGroupMap {
    /// The group of each macroblock address.
    pub closed spec fn map(&self) -> Seq<u8> {
        self.map@
    }

    /// `(width, height)` in macroblocks.
    pub closed spec fn dims(&self) -> (usize, usize) {
        (self.pic_width_in_mbs, self.pic_height_in_mbs)
    }

    /// The map of a `w` by `h` macroblock picture. Fails for an explicit map whose
    /// length is not the picture's size.
    pub fn new(params: &SliceGroupParams, pic_width_in_mbs: usize, pic_height_in_mbs: usize) -> (r: Result<MbToSliceGroupMap>)
        requires
            params_ok(*params, pic_width_in_mbs as int, pic_height_in_mbs as int),
        ensures
            (params.num_slice_groups != 1 && params.map_type == SliceGroupMapType::Explicit
                && params.explicit_map@.len() != pic_width_in_mbs * pic_height_in_mbs) <==> r is Err,
            r matches Err(e) ==> e.is_invalid(),
            r matches Ok(m) ==> {
                &&& m.dims() == (pic_width_in_mbs, pic_height_in_mbs)
                &&& m.map().len() == pic_width_in_mbs * pic_height_in_mbs
                &&& forall|i: int| 0 <= i < m.map().len() ==>
                    #[trigger] m.map()[i] as int == slice_group_of(*params, pic_width_in_mbs as int, pic_height_in_mbs as int, i)
            },
    {
        let w = pic_width_in_mbs;
        let h = pic_height_in_mbs;
        let size = w * h;
        assert(size > 0 ==> w > 0) by (nonlinear_arith)
            requires size == w * h;
        if params.num_slice_groups == 1 {
            let map = vec![0u8; size];
            return Ok(MbToSliceGroupMap { map, pic_width_in_mbs, pic_height_in_mbs });
        }
        let map = match params.map_type {
            SliceGroupMapType::Interleaved => Self::generate_interleaved_map(params, size),
            SliceGroupMapType::Dispersed => Self::generate_dispersed_map(params, w, size),
            SliceGroupMapType::ForegroundWithLeftOver => Self::generate_foreground_map(params, w, h),
            SliceGroupMapType::BoxOut => Self::generate_box_out_map(params, w, h),
            SliceGroupMapType::RasterScan => Self::generate_raster_scan_map(params, size),
            SliceGroupMapType::Wipe => Self::generate_wipe_map(params, w, size),
            SliceGroupMapType::Explicit => {
                if params.explicit_map.len() != size {
                    return Err(Error::invalid("FMO", "Explicit map size doesn't match picture size"));
                }
                params.explicit_map.clone()
            },
        };
        Ok(MbToSliceGroupMap { map, pic_width_in_mbs, pic_height_in_mbs })
    }

    /// Interleaved: the runs of the groups in turn, repeated.
    fn generate_interleaved_map(params: &SliceGroupParams, size: usize) -> (map: Vec<u8>)
        requires
            params.num_slice_groups != 1,
            params.map_type == SliceGroupMapType::Interleaved,
            size > 0 ==> run_prefix(params.run_length@, params.num_slice_groups as int) > 0,
        ensures
            map@.len() == size,
            forall|i: int| 0 <= i < size ==> #[trigger] map@[i] as int
                == (run_group(params.run_length@, params.num_slice_groups as int, 0,
                    i % run_prefix(params.run_length@, params.num_slice_groups as int)) as u8) as int,
    {
        let ghost runs = params.run_length@;
        let n = params.num_slice_groups;
        let ghost t = run_prefix(runs, n as int);
        let mut map = vec![0u8; size];
        let mut i: usize = 0;
        let ghost mut c: int = 0;
        if size == 0 {
            return map;
        }
        while i < size
            invariant
                map@.len() == size,
                size > 0,
                t == run_prefix(runs, n as int),
                t > 0,
                runs == params.run_length@,
                n == params.num_slice_groups,
                c >= 0,
                i == c * t,
                forall|j: int| 0 <= j < i ==> #[trigger] map@[j] as int == (run_group(runs, n as int, 0, j % t) as u8) as int,
            decreases size - i,
        {
            let mut g: usize = 0;
            while g < n
                invariant
                    map@.len() == size,
                    t == run_prefix(runs, n as int),
                    t > 0,
                    runs == params.run_length@,
                    n == params.num_slice_groups,
                    c >= 0,
                    g <= n,
                    i <= size,
                    i == c * t + run_prefix(runs, g as int),
                    forall|j: int| 0 <= j < i && j < size ==> #[trigger] map@[j] as int == (run_group(runs, n as int, 0, j % t) as u8) as int,
                decreases n - g,
            {
                let run_len: usize = if g < params.run_length.len() { params.run_length[g] as usize } else { 0 };
                let mut k: usize = 0;
                while k < run_len
                    invariant
                        map@.len() == size,
                        t == run_prefix(runs, n as int),
                        t > 0,
                        runs == params.run_length@,
                        n == params.num_slice_groups,
                        c >= 0,
                        g < n,
                        run_len == run_of(runs, g as int),
                        k <= run_len,
                        i <= size,
                        i == c * t + run_prefix(runs, g as int) + k,
                        forall|j: int| 0 <= j < i && j < size ==> #[trigger] map@[j] as int == (run_group(runs, n as int, 0, j % t) as u8) as int,
                    decreases run_len - k,
                {
                    if i >= size {
                        return map;
                    }
                    proof {
                        lemma_run_prefix_mono(runs, g as int + 1, n as int);
                        lemma_run_prefix_mono(runs, 0, g as int);
                        lemma_mod_in_cycle(c, t, run_prefix(runs, g as int) + k);
                        lemma_run_group(runs, n as int, 0, g as int, run_prefix(runs, g as int) + k);
                    }
                    map.set(i, g as u8);
                    i += 1;
                    k += 1;
                }
                g += 1;
            }
            proof {
                assert(i == (c + 1) * t) by (nonlinear_arith)
                    requires i == c * t + t;
                c = c + 1;
            }
        }
        map
    }

    /// Dispersed: `(x + y * (n - 1)) % n` at column `x`, row `y`.
    fn generate_dispersed_map(params: &SliceGroupParams, w: usize, size: usize) -> (map: Vec<u8>)
        requires
            size > 0 ==> params.num_slice_groups >= 1 && w > 0
                && (w - 1) + ((size - 1) / (w as int)) * (params.num_slice_groups - 1) <= usize::MAX,
        ensures
            map@.len() == size,
            forall|i: int| 0 <= i < size ==> #[trigger] map@[i] as int
                == ((((i % w as int) + (i / w as int) * (params.num_slice_groups - 1)) % params.num_slice_groups as int) as u8) as int,
    {
        let n = params.num_slice_groups;
        let mut map = vec![0u8; size];
        let mut i: usize = 0;
        while i < size
            invariant
                map@.len() == size,
                n == params.num_slice_groups,
                i <= size,
                size > 0 ==> n >= 1 && w > 0 && (w - 1) + ((size - 1) / (w as int)) * (n - 1) <= usize::MAX,
                forall|j: int| 0 <= j < i ==> #[trigger] map@[j] as int
                    == ((((j % w as int) + (j / w as int) * (n - 1)) % n as int) as u8) as int,
            decreases size - i,
        {
            let x = i % w;
            let y = i / w;
            assert(y * (n - 1) <= ((size - 1) / (w as int)) * (n - 1)) by (nonlinear_arith)
                requires y == i / w, i <= size - 1, w > 0, n >= 1;
            map.set(i, ((x + y * (n - 1)) % n) as u8);
            i += 1;
        }
        map
    }

    /// Foreground with left-over: each box painted with its group, later boxes over
    /// earlier ones, the rest in the last group.
    fn generate_foreground_map(params: &SliceGroupParams, w: usize, h: usize) -> (map: Vec<u8>)
        requires
            params_ok(*params, w as int, h as int),
            params.num_slice_groups != 1,
            params.map_type == SliceGroupMapType::ForegroundWithLeftOver,
        ensures
            map@.len() == w * h,
            forall|i: int| 0 <= i < w * h ==> #[trigger] map@[i] as int
                == foreground_group(*params, w as int, params.num_slice_groups - 1, i) as u8 as int,
    {
        let size = w * h;
        let n = params.num_slice_groups;
        let mut map = vec![(n - 1) as u8; size];
        let mut g: usize = 0;
        while g < n - 1
            invariant
                size == w * h,
                map@.len() == size,
                n == params.num_slice_groups,
                n >= 2,
                g <= n - 1,
                params.map_type == SliceGroupMapType::ForegroundWithLeftOver,
                params_ok(*params, w as int, h as int),
                forall|i: int| 0 <= i < size ==> #[trigger] map@[i] as int
                    == foreground_group(*params, w as int, g as int, i) as u8 as int,
            decreases n - 1 - g,
        {
            if g < params.top_left.len() && g < params.bottom_right.len() {
                let (tl_x, tl_y) = params.top_left[g];
                let (br_x, br_y) = params.bottom_right[g];
                proof {
                    assert(has_box(*params, g as int));
                }
                let ghost prev = map@;
                let mut y: u64 = tl_y as u64;
                while y <= br_y as u64
                    invariant
                        size == w * h,
                        map@.len() == size,
                        prev.len() == size,
                        tl_y <= y,
                        y <= br_y as u64 + 1 || y == tl_y,
                        n == params.num_slice_groups,
                        g < n - 1,
                        has_box(*params, g as int),
                        params.map_type == SliceGroupMapType::ForegroundWithLeftOver,
                        params.top_left@[g as int] == (tl_x, tl_y),
                        params.bottom_right@[g as int] == (br_x, br_y),
                        params_ok(*params, w as int, h as int),
                        forall|i: int| 0 <= i < size ==> #[trigger] map@[i] == (if (exists|xx: int, yy: int|
                            tl_x <= xx <= br_x && tl_y <= yy < y && #[trigger] (yy * w + xx) == i) { g as u8 } else { prev[i] }),
                    decreases br_y as u64 + 1 - y,
                {
                    let mut x: u64 = tl_x as u64;
                    while x <= br_x as u64
                        invariant
                            size == w * h,
                            map@.len() == size,
                            prev.len() == size,
                            tl_y <= y <= br_y,
                            tl_x <= x,
                            x <= br_x as u64 + 1 || x == tl_x,
                            n == params.num_slice_groups,
                            g < n - 1,
                            has_box(*params, g as int),
                            params.map_type == SliceGroupMapType::ForegroundWithLeftOver,
                            params.top_left@[g as int] == (tl_x, tl_y),
                            params.bottom_right@[g as int] == (br_x, br_y),
                            params_ok(*params, w as int, h as int),
                            forall|i: int| 0 <= i < size ==> #[trigger] map@[i] == (if (exists|xx: int, yy: int|
                                tl_x <= xx <= br_x && tl_y <= yy <= y && (yy < y || xx < x) && #[trigger] (yy * w + xx) == i)
                                { g as u8 } else { prev[i] }),
                        decreases br_x as u64 + 1 - x,
                    {
                        proof {
                            assert(y * w + x <= br_y * w + br_x) by (nonlinear_arith)
                                requires y <= br_y, x <= br_x;
                            assert(tl_x <= br_x && tl_y <= br_y);
                            assert(br_y * w + br_x <= usize::MAX);
                        }
                        let idx = (y as usize) * w + (x as usize);
                        if idx < size {
                            map.set(idx, g as u8);
                        }
                        proof {
                            assert forall|i: int| 0 <= i < size implies #[trigger] map@[i] == (if (exists|xx: int, yy: int|
                                tl_x <= xx <= br_x && tl_y <= yy <= y && (yy < y || xx < x + 1) && #[trigger] (yy * w + xx) == i)
                                { g as u8 } else { prev[i] }) by {
                                let e_new = exists|xx: int, yy: int|
                                    tl_x <= xx <= br_x && tl_y <= yy <= y && (yy < y || xx < x + 1) && #[trigger] (yy * w + xx) == i;
                                let e_old = exists|xx: int, yy: int|
                                    tl_x <= xx <= br_x && tl_y <= yy <= y && (yy < y || xx < x) && #[trigger] (yy * w + xx) == i;
                                if i == idx {
                                    assert(tl_x <= x <= br_x && tl_y <= y <= y && (y < y || x < x + 1) && y * w + x == i);
                                    assert(e_new);
                                } else {
                                    if e_new {
                                        let (xx, yy) = choose|xx: int, yy: int|
                                            tl_x <= xx <= br_x && tl_y <= yy <= y && (yy < y || xx < x + 1) && #[trigger] (yy * w + xx) == i;
                                        assert(!(yy == y && xx == x));
                                        assert(e_old);
                                    }
                                    if e_old {
                                        let (xx, yy) = choose|xx: int, yy: int|
                                            tl_x <= xx <= br_x && tl_y <= yy <= y && (yy < y || xx < x) && #[trigger] (yy * w + xx) == i;
                                        assert(e_new);
                                    }
                                }
                            }
                        }
                        x += 1;
                    }
                    proof {
                        assert forall|i: int| 0 <= i < size implies #[trigger] map@[i] == (if (exists|xx: int, yy: int|
                            tl_x <= xx <= br_x && tl_y <= yy < y + 1 && #[trigger] (yy * w + xx) == i) { g as u8 } else { prev[i] }) by {
                            let e_a = exists|xx: int, yy: int|
                                tl_x <= xx <= br_x && tl_y <= yy <= y && (yy < y || xx < x) && #[trigger] (yy * w + xx) == i;
                            let e_b = exists|xx: int, yy: int|
                                tl_x <= xx <= br_x && tl_y <= yy < y + 1 && #[trigger] (yy * w + xx) == i;
                            if e_a {
                                let (xx, yy) = choose|xx: int, yy: int|
                                    tl_x <= xx <= br_x && tl_y <= yy <= y && (yy < y || xx < x) && #[trigger] (yy * w + xx) == i;
                                assert(e_b);
                            }
                            if e_b {
                                let (xx, yy) = choose|xx: int, yy: int|
                                    tl_x <= xx <= br_x && tl_y <= yy < y + 1 && #[trigger] (yy * w + xx) == i;
                                assert(e_a);
                            }
                        }
                    }
                    y += 1;
                }
                proof {
                    assert forall|i: int| 0 <= i < size implies #[trigger] map@[i] as int
                        == foreground_group(*params, w as int, g as int + 1, i) as u8 as int by {
                        let e_y = exists|xx: int, yy: int|
                            tl_x <= xx <= br_x && tl_y <= yy < y && #[trigger] (yy * w + xx) == i;
                        assert(e_y == box_covers(*params, g as int, w as int, i)) by {
                            if e_y {
                                let (xx, yy) = choose|xx: int, yy: int|
                                    tl_x <= xx <= br_x && tl_y <= yy < y && #[trigger] (yy * w + xx) == i;
                                assert(tl_x <= xx <= br_x && tl_y <= yy <= br_y && yy * w + xx == i);
                            }
                            if box_covers(*params, g as int, w as int, i) {
                                let (xx, yy) = choose|xx: int, yy: int|
                                    tl_x <= xx <= br_x && tl_y <= yy <= br_y && #[trigger] (yy * w + xx) == i;
                                assert(tl_x <= xx <= br_x && tl_y <= yy < y && yy * w + xx == i);
                            }
                        }
                    }
                }
            } else {
                proof {
                    assert(!has_box(*params, g as int));
                }
            }
            g += 1;
        }
        map
    }

    /// Box-out with two groups: group 0 for the centre box, group 1 elsewhere.
    fn generate_box_out_map(params: &SliceGroupParams, w: usize, h: usize) -> (map: Vec<u8>)
        requires
            w * h <= usize::MAX,
            w * h > 0 ==> w <= i32::MAX && h <= i32::MAX,
        ensures
            map@.len() == w * h,
            forall|i: int| 0 <= i < w * h ==> #[trigger] map@[i] as int == (if params.num_slice_groups == 2
                && iabs(i % w as int - w as int / 2) < (w as int / 2) / 2 && iabs(i / w as int - h as int / 2) < (h as int / 2) / 2 { 0int } else { 1int }),
    {
        let size = w * h;
        let mut map = vec![1u8; size];
        if params.num_slice_groups == 2 {
            let center_x = w / 2;
            let center_y = h / 2;
            let mut y: usize = 0;
            while y < h
                invariant
                    size == w * h,
                    map@.len() == size,
                    params.num_slice_groups == 2,
                    center_x == w / 2,
                    center_y == h / 2,
                    y <= h,
                    size > 0 ==> w <= i32::MAX && h <= i32::MAX,
                    forall|i: int| 0 <= i < size ==> #[trigger] map@[i] as int == (if i < y * w
                        && iabs(i % w as int - w as int / 2) < (w as int / 2) / 2 && iabs(i / w as int - h as int / 2) < (h as int / 2) / 2 { 0int } else { 1int }),
                decreases h - y,
            {
                assert(w > 0 ==> w * h > 0) by (nonlinear_arith)
                    requires h > 0;
                let mut x: usize = 0;
                while x < w
                    invariant
                        size == w * h,
                        map@.len() == size,
                        center_x == w / 2,
                        center_y == h / 2,
                        y < h,
                        x <= w,
                        w > 0 ==> size > 0 && w <= i32::MAX && h <= i32::MAX,
                        forall|i: int| 0 <= i < size ==> #[trigger] map@[i] as int == (if i < y * w + x
                            && iabs(i % w as int - w as int / 2) < (w as int / 2) / 2 && iabs(i / w as int - h as int / 2) < (h as int / 2) / 2 { 0int } else { 1int }),
                    decreases w - x,
                {
                    assert(y * w + x < w * h) by (nonlinear_arith)
                        requires y < h, x < w;
                    let idx = y * w + x;
                    proof {
                        vstd::arithmetic::div_mod::lemma_fundamental_div_mod_converse(idx as int, w as int, y as int, x as int);
                    }
                    let dx: i32 = x as i32 - center_x as i32;
                    let dy: i32 = y as i32 - center_y as i32;
                    let dist_x = (if dx < 0 { -dx } else { dx }) as usize;
                    let dist_y = (if dy < 0 { -dy } else { dy }) as usize;
                    if dist_x < center_x / 2 && dist_y < center_y / 2 {
                        map.set(idx, 0);
                    }
                    x += 1;
                }
                assert(y * w + w == (y + 1) * w) by (nonlinear_arith);
                y += 1;
            }
            assert(h * w == w * h) by (nonlinear_arith);
        }
        map
    }

    /// Raster scan: `i / change_rate`, at most the last group.
    fn generate_raster_scan_map(params: &SliceGroupParams, size: usize) -> (map: Vec<u8>)
        requires
            size > 0 ==> params.change_rate > 0 && params.num_slice_groups >= 1,
        ensures
            map@.len() == size,
            forall|i: int| 0 <= i < size ==> #[trigger] map@[i] as int == ({
                let q = i / (params.change_rate as int);
                if q < params.num_slice_groups - 1 { q as u8 as int } else { (params.num_slice_groups - 1) as u8 as int }
            }),
    {
        let mut map = vec![0u8; size];
        let rate = params.change_rate as usize;
        let mut i: usize = 0;
        while i < size
            invariant
                map@.len() == size,
                rate == params.change_rate,
                i <= size,
                size > 0 ==> rate > 0 && params.num_slice_groups >= 1,
                forall|j: int| 0 <= j < i ==> #[trigger] map@[j] as int == ({
                    let q = j / (rate as int);
                    if q < params.num_slice_groups - 1 { q as u8 as int } else { (params.num_slice_groups - 1) as u8 as int }
                }),
            decreases size - i,
        {
            let q = i / rate;
            let group = if q < params.num_slice_groups - 1 { q } else { params.num_slice_groups - 1 };
            map.set(i, group as u8);
            i += 1;
        }
        map
    }

    /// Wipe: by column (when the direction flag is set) or by address, over
    /// `change_rate`, at most the last group.
    fn generate_wipe_map(params: &SliceGroupParams, w: usize, size: usize) -> (map: Vec<u8>)
        requires
            size > 0 ==> params.change_rate > 0 && params.num_slice_groups >= 1 && w > 0,
        ensures
            map@.len() == size,
            forall|i: int| 0 <= i < size ==> #[trigger] map@[i] as int == ({
                let pos = if params.change_direction_flag { i % w as int } else { i };
                let q = pos / (params.change_rate as int);
                if q < params.num_slice_groups - 1 { q as u8 as int } else { (params.num_slice_groups - 1) as u8 as int }
            }),
    {
        let mut map = vec![0u8; size];
        let rate = params.change_rate as usize;
        let mut i: usize = 0;
        while i < size
            invariant
                map@.len() == size,
                rate == params.change_rate,
                i <= size,
                size > 0 ==> rate > 0 && params.num_slice_groups >= 1 && w > 0,
                forall|j: int| 0 <= j < i ==> #[trigger] map@[j] as int == ({
                    let pos = if params.change_direction_flag { j % w as int } else { j };
                    let q = pos / (rate as int);
                    if q < params.num_slice_groups - 1 { q as u8 as int } else { (params.num_slice_groups - 1) as u8 as int }
                }),
            decreases size - i,
        {
            let x = i % w;
            let pos = if params.change_direction_flag { x } else { i };
            let q = pos / rate;
            let group = if q < params.num_slice_groups - 1 { q } else { params.num_slice_groups - 1 };
            map.set(i, group as u8);
            i += 1;
        }
        map
    }

    /// The group of macroblock `mb_addr`; 0 past the end of the map.
    pub fn get_slice_group(&self, mb_addr: usize) -> (g: u8)
        ensures
            g == (if mb_addr < self.map().len() { self.map()[mb_addr as int] } else { 0u8 }),
    {
        if mb_addr < self.map.len() { self.map[mb_addr] } else { 0 }
    }

    /// The number of macroblocks of the map.
    pub fn pic_size_in_mbs(&self) -> (n: usize)
        ensures
            n == self.map().len(),
    {
        self.map.len()
    }
}

/// The dispersed map steps through the groups: one macroblock to the right is the
/// next group (cyclically), one macroblock down the previous one, so with two groups
/// the map is a checkerboard, group `(x + y) % 2` at column `x`, row `y`.
pub proof fn lemma_dispersed_map(p: SliceGroupParams, w: int, h: int, x: int, y: int)
    requires
        p.map_type == SliceGroupMapType::Dispersed,
        2 <= p.num_slice_groups <= 256,
        0 <= x < w,
        0 <= y,
    ensures ({
        let n = p.num_slice_groups as int;
        let g = |xx: int, yy: int| slice_group_of(p, w, h, yy * w + xx);
        &&& g(x, y) == (x + y * (n - 1)) % n
        &&& x + 1 < w ==> g(x + 1, y) == (g(x, y) + 1) % n
        &&& g(x, y + 1) == (g(x, y) + n - 1) % n
        &&& n == 2 ==> g(x, y) == (x + y) % 2
    }),
{
    let n = p.num_slice_groups as int;
    assert forall|xx: int, yy: int| 0 <= xx < w && 0 <= yy implies
        #[trigger] slice_group_of(p, w, h, yy * w + xx) == (xx + yy * (n - 1)) % n by {
        assert(yy * w + xx >= 0) by (nonlinear_arith) requires 0 <= xx, 0 <= yy, w > 0;
        vstd::arithmetic::div_mod::lemma_fundamental_div_mod_converse(yy * w + xx, w, yy, xx);
        assert(yy * (n - 1) >= 0) by (nonlinear_arith) requires yy >= 0, n >= 2;
        vstd::arithmetic::div_mod::lemma_mod_bound(xx + yy * (n - 1), n);
    }
    let v = x + y * (n - 1);
    assert((y + 1) * (n - 1) == y * (n - 1) + (n - 1)) by (nonlinear_arith);
    assert(y * (n - 1) >= 0) by (nonlinear_arith) requires y >= 0, n >= 2;
    assert(0 <= y + 1);
    if x + 1 < w {
        vstd::arithmetic::div_mod::lemma_add_mod_noop(v, 1, n);
        vstd::arithmetic::div_mod::lemma_small_mod(1, n as nat);
    }
    vstd::arithmetic::div_mod::lemma_add_mod_noop(v, n - 1, n);
    vstd::arithmetic::div_mod::lemma_small_mod((n - 1) as nat, n as nat);
    if n == 2 {
        assert(y * (n - 1) == y) by (nonlinear_arith) requires n == 2;
    }
}

} // verus!
