//! Reference picture list modification: the commands of the slice header and
//! their application to a default reference picture list.
use vstd::prelude::*;
use vstd::arithmetic::power2::pow2;
use crate::error::{Error, Result};
use super::arith::shl1_i32;

verus! {

/// One reference picture list modification command.
#[derive(Debug, Clone, Copy, PartialEq, Eq, Structural)]
pub enum RplrCommand {
    /// Move the short-term picture `abs_diff_pic_num + 1` below the predictor.
    ShortTermSub { abs_diff_pic_num: u32 },
    /// Move the short-term picture `abs_diff_pic_num + 1` above the predictor.
    ShortTermAdd { abs_diff_pic_num: u32 },
    /// Move the long-term picture with this number.
    LongTerm { long_term_pic_num: u32 },
    /// End of the commands.
    End,
}

impl RplrCommand {
    /// The command for `modification_of_pic_nums_idc` (0 to 3) with its parameter.
    pub fn from_idc(idc: u32, param: u32) -> (r: Result<RplrCommand>)
        ensures
            idc == 0 <==> r == Ok::<RplrCommand, Error>(RplrCommand::ShortTermSub { abs_diff_pic_num: param }),
            idc == 1 <==> r == Ok::<RplrCommand, Error>(RplrCommand::ShortTermAdd { abs_diff_pic_num: param }),
            idc == 2 <==> r == Ok::<RplrCommand, Error>(RplrCommand::LongTerm { long_term_pic_num: param }),
            idc == 3 <==> r == Ok::<RplrCommand, Error>(RplrCommand::End),
            idc > 3 <==> (r matches Err(e) && e.is_invalid()),
    {
        match idc {
            0 => Ok(RplrCommand::ShortTermSub { abs_diff_pic_num: param }),
            1 => Ok(RplrCommand::ShortTermAdd { abs_diff_pic_num: param }),
            2 => Ok(RplrCommand::LongTerm { long_term_pic_num: param }),
            3 => Ok(RplrCommand::End),
            _ => Err(Error::invalid("RPLR", "Invalid modification_of_pic_nums_idc")),
        }
    }

    /// The `modification_of_pic_nums_idc` of the command.
    pub fn to_idc(&self) -> (r: u32)
        ensures
            r == (match *self {
                RplrCommand::ShortTermSub { .. } => 0u32,
                RplrCommand::ShortTermAdd { .. } => 1u32,
                RplrCommand::LongTerm { .. } => 2u32,
                RplrCommand::End => 3u32,
            }),
    {
        match self {
            RplrCommand::ShortTermSub { .. } => 0,
            RplrCommand::ShortTermAdd { .. } => 1,
            RplrCommand::LongTerm { .. } => 2,
            RplrCommand::End => 3,
        }
    }
}

/// `from_idc` gives back the command's `idc` and parameter: `to_idc` undoes it.
pub proof fn lemma_idc_round_trip(idc: u32, param: u32, cmd: RplrCommand)
    requires
        idc <= 3,
        cmd == (if idc == 0 { RplrCommand::ShortTermSub { abs_diff_pic_num: param } }
            else if idc == 1 { RplrCommand::ShortTermAdd { abs_diff_pic_num: param } }
            else if idc == 2 { RplrCommand::LongTerm { long_term_pic_num: param } }
            else { RplrCommand::End }),
    ensures
        (match cmd {
            RplrCommand::ShortTermSub { .. } => 0u32,
            RplrCommand::ShortTermAdd { .. } => 1u32,
            RplrCommand::LongTerm { .. } => 2u32,
            RplrCommand::End => 3u32,
        }) == idc,
{
}

/// The modification commands of both lists of a slice.
#[derive(Debug, Clone)]
pub struct RplrState {
    pub list0_commands: Vec<RplrCommand>,
    pub list1_commands: Vec<RplrCommand>,
    pub list0_reordering: bool,
    pub list1_reordering: bool,
}

impl RplrState {
    /// No commands on either list.
    pub fn new() -> (s: RplrState)
        ensures
            s.list0_commands@ == Seq::<RplrCommand>::empty(),
            s.list1_commands@ == Seq::<RplrCommand>::empty(),
            !s.list0_reordering,
            !s.list1_reordering,
    {
        RplrState {
            list0_commands: Vec::new(),
            list1_commands: Vec::new(),
            list0_reordering: false,
            list1_reordering: false,
        }
    }

    /// Append a command for list 0 and mark list 0 as modified.
    pub fn add_list0_command(&mut self, cmd: RplrCommand)
        ensures
            final(self).list0_commands@ == old(self).list0_commands@.push(cmd),
            final(self).list0_reordering,
            final(self).list1_commands@ == old(self).list1_commands@,
            final(self).list1_reordering == old(self).list1_reordering,
    {
        self.list0_reordering = true;
        self.list0_commands.push(cmd);
    }

    /// Append a command for list 1 and mark list 1 as modified.
    pub fn add_list1_command(&mut self, cmd: RplrCommand)
        ensures
            final(self).list1_commands@ == old(self).list1_commands@.push(cmd),
            final(self).list1_reordering,
            final(self).list0_commands@ == old(self).list0_commands@,
            final(self).list0_reordering == old(self).list0_reordering,
    {
        self.list1_reordering = true;
        self.list1_commands.push(cmd);
    }
}

impl Default for RplrState {
    fn default() -> (s: RplrState)
        ensures
            s.list0_commands@ == Seq::<RplrCommand>::empty(),
            s.list1_commands@ == Seq::<RplrCommand>::empty(),
            !s.list0_reordering,
            !s.list1_reordering,
    {
        RplrState::new()
    }
}

/// A picture of a reference picture list with its numbers.
#[derive(Debug, Clone)]
pub struct RefPicListEntry<'a, T> {
    pub picture: &'a T,
    pub pic_num: i32,
    pub long_term_pic_num: Option<u32>,
    pub is_long_term: bool,
}

/// The first short-term entry with `pic_num`, if any.
pub open spec fn find_short<'a, T>(s: Seq<RefPicListEntry<'a, T>>, pic_num: int) -> Option<int>
    decreases s.len(),
{
    if s.len() == 0 {
        None
    } else if !s[0].is_long_term && s[0].pic_num == pic_num {
        Some(0)
    } else {
        match find_short(s.drop_first(), pic_num) {
            Some(i) => Some(i + 1),
            None => None,
        }
    }
}

/// The first long-term entry with `long_term_pic_num`, if any.
pub open spec fn find_long<'a, T>(s: Seq<RefPicListEntry<'a, T>>, n: u32) -> Option<int>
    decreases s.len(),
{
    if s.len() == 0 {
        None
    } else if s[0].is_long_term && s[0].long_term_pic_num == Some(n) {
        Some(0)
    } else {
        match find_long(s.drop_first(), n) {
            Some(i) => Some(i + 1),
            None => None,
        }
    }
}

/// The picture number a short-term command names, from the predictor: one more
/// than the difference below or above it, wrapped into `[0, max_pic_num)`.
pub open spec fn target_pic_num(cmd: RplrCommand, pred: int, max_pic_num: int) -> int {
    match cmd {
        RplrCommand::ShortTermSub { abs_diff_pic_num } => {
            let n = pred - (abs_diff_pic_num as i32) - 1;
            if n < 0 { n + max_pic_num } else { n }
        },
        RplrCommand::ShortTermAdd { abs_diff_pic_num } => {
            let n = pred + (abs_diff_pic_num as i32) + 1;
            if n >= max_pic_num { n - max_pic_num } else { n }
        },
        _ => pred,
    }
}

/// Every picture number computed while applying the commands fits in `i32`.
pub open spec fn reorder_fits<'a, T>(rest: Seq<RefPicListEntry<'a, T>>, cmds: Seq<RplrCommand>, pred: int, max_pic_num: int) -> bool
    decreases cmds.len(),
{
    if cmds.len() == 0 {
        true
    } else {
        match cmds[0] {
            RplrCommand::End => true,
            RplrCommand::LongTerm { long_term_pic_num } => match find_long(rest, long_term_pic_num) {
                Some(i) => reorder_fits(rest.remove(i), cmds.drop_first(), pred, max_pic_num),
                None => true,
            },
            RplrCommand::ShortTermSub { abs_diff_pic_num } => {
                let a = pred - (abs_diff_pic_num as i32);
                let n = a - 1;
                &&& i32::MIN <= a <= i32::MAX && i32::MIN <= n <= i32::MAX
                &&& (n < 0 ==> i32::MIN <= n + max_pic_num <= i32::MAX)
                &&& match find_short(rest, target_pic_num(cmds[0], pred, max_pic_num)) {
                    Some(i) => reorder_fits(rest.remove(i), cmds.drop_first(), target_pic_num(cmds[0], pred, max_pic_num), max_pic_num),
                    None => true,
                }
            },
            RplrCommand::ShortTermAdd { abs_diff_pic_num } => {
                let a = pred + (abs_diff_pic_num as i32);
                let n = a + 1;
                &&& i32::MIN <= a <= i32::MAX && i32::MIN <= n <= i32::MAX
                &&& (n >= max_pic_num ==> i32::MIN <= n - max_pic_num <= i32::MAX)
                &&& match find_short(rest, target_pic_num(cmds[0], pred, max_pic_num)) {
                    Some(i) => reorder_fits(rest.remove(i), cmds.drop_first(), target_pic_num(cmds[0], pred, max_pic_num), max_pic_num),
                    None => true,
                }
            },
        }
    }
}

/// The list after the commands: each command moves the picture it names from the
/// remaining pictures to the end of the moved ones; the remaining pictures follow in
/// their order. `None` where a command names a picture that is not there.
pub open spec fn reorder_spec<'a, T>(front: Seq<RefPicListEntry<'a, T>>, rest: Seq<RefPicListEntry<'a, T>>, cmds: Seq<RplrCommand>, pred: int, max_pic_num: int) -> Option<Seq<RefPicListEntry<'a, T>>>
    decreases cmds.len(),
{
    if cmds.len() == 0 {
        Some(front + rest)
    } else {
        match cmds[0] {
            RplrCommand::End => Some(front + rest),
            RplrCommand::LongTerm { long_term_pic_num } => match find_long(rest, long_term_pic_num) {
                Some(i) => reorder_spec(front.push(rest[i]), rest.remove(i), cmds.drop_first(), pred, max_pic_num),
                None => None,
            },
            _ => {
                let pn = target_pic_num(cmds[0], pred, max_pic_num);
                match find_short(rest, pn) {
                    Some(i) => reorder_spec(front.push(rest[i]), rest.remove(i), cmds.drop_first(), pn, max_pic_num),
                    None => None,
                }
            },
        }
    }
}

proof fn lemma_find_short_props<'a, T>(s: Seq<RefPicListEntry<'a, T>>, pic_num: int)
    ensures
        match find_short(s, pic_num) {
            Some(i) => 0 <= i < s.len() && !s[i].is_long_term && s[i].pic_num == pic_num
                && forall|j: int| 0 <= j < i ==> !(!#[trigger] s[j].is_long_term && s[j].pic_num == pic_num),
            None => forall|j: int| 0 <= j < s.len() ==> !(!#[trigger] s[j].is_long_term && s[j].pic_num == pic_num),
        },
    decreases s.len(),
{
    if s.len() > 0 {
        lemma_find_short_props(s.drop_first(), pic_num);
        assert forall|j: int| 1 <= j < s.len() implies #[trigger] s[j] == s.drop_first()[j - 1] by {}
    }
}

proof fn lemma_find_long_props<'a, T>(s: Seq<RefPicListEntry<'a, T>>, n: u32)
    ensures
        match find_long(s, n) {
            Some(i) => 0 <= i < s.len() && s[i].is_long_term && s[i].long_term_pic_num == Some(n)
                && forall|j: int| 0 <= j < i ==> !(#[trigger] s[j].is_long_term && s[j].long_term_pic_num == Some(n)),
            None => forall|j: int| 0 <= j < s.len() ==> !(#[trigger] s[j].is_long_term && s[j].long_term_pic_num == Some(n)),
        },
    decreases s.len(),
{
    if s.len() > 0 {
        lemma_find_long_props(s.drop_first(), n);
        assert forall|j: int| 1 <= j < s.len() implies #[trigger] s[j] == s.drop_first()[j - 1] by {}
    }
}

proof fn lemma_find_short_unique<'a, T>(s: Seq<RefPicListEntry<'a, T>>, pic_num: int, i: int)
    requires
        0 <= i < s.len(),
        !s[i].is_long_term && s[i].pic_num == pic_num,
        forall|j: int| 0 <= j < i ==> !(!#[trigger] s[j].is_long_term && s[j].pic_num == pic_num),
    ensures
        find_short(s, pic_num) == Some(i),
{
    lemma_find_short_props(s, pic_num);
}

proof fn lemma_find_long_unique<'a, T>(s: Seq<RefPicListEntry<'a, T>>, n: u32, i: int)
    requires
        0 <= i < s.len(),
        s[i].is_long_term && s[i].long_term_pic_num == Some(n),
        forall|j: int| 0 <= j < i ==> !(#[trigger] s[j].is_long_term && s[j].long_term_pic_num == Some(n)),
    ensures
        find_long(s, n) == Some(i),
{
    lemma_find_long_props(s, n);
}

fn position_short<'a, T>(list: &Vec<RefPicListEntry<'a, T>>, pic_num: i32) -> (r: Option<usize>)
    ensures
        r matches Some(i) ==> find_short(list@, pic_num as int) == Some(i as int) && i < list@.len(),
        r is None ==> find_short(list@, pic_num as int) is None,
{
    let mut i: usize = 0;
    while i < list.len()
        invariant
            0 <= i <= list@.len(),
            forall|j: int| 0 <= j < i ==> !(!#[trigger] list@[j].is_long_term && list@[j].pic_num == pic_num),
        decreases list@.len() - i,
    {
        if !list[i].is_long_term && list[i].pic_num == pic_num {
            proof {
                lemma_find_short_unique(list@, pic_num as int, i as int);
            }
            return Some(i);
        }
        i = i + 1;
    }
    proof {
        lemma_find_short_props(list@, pic_num as int);
    }
    None
}

fn position_long<'a, T>(list: &Vec<RefPicListEntry<'a, T>>, n: u32) -> (r: Option<usize>)
    ensures
        r matches Some(i) ==> find_long(list@, n) == Some(i as int) && i < list@.len(),
        r is None ==> find_long(list@, n) is None,
{
    let mut i: usize = 0;
    while i < list.len()
        invariant
            0 <= i <= list@.len(),
            forall|j: int| 0 <= j < i ==> !(#[trigger] list@[j].is_long_term && list@[j].long_term_pic_num == Some(n)),
        decreases list@.len() - i,
    {
        let is_match = match list[i].long_term_pic_num {
            Some(m) => list[i].is_long_term && m == n,
            None => false,
        };
        if is_match {
            proof {
                lemma_find_long_unique(list@, n, i as int);
            }
            return Some(i);
        }
        i = i + 1;
    }
    proof {
        lemma_find_long_props(list@, n);
    }
    None
}

/// Apply the modification commands to a default list. Without commands the list is
/// returned as it is; a command that names a picture not in the list fails.
pub fn reorder_ref_pic_list<'a, T>(default_list: Vec<RefPicListEntry<'a, T>>, commands: &[RplrCommand], curr_pic_num: i32, max_pic_num: i32) -> (r: Result<Vec<RefPicListEntry<'a, T>>>)
    requires
        reorder_fits(default_list@, commands@, curr_pic_num as int, max_pic_num as int),
    ensures
        commands@.len() == 0 ==> (r matches Ok(l) && l@ == default_list@),
        match reorder_spec(Seq::empty(), default_list@, commands@, curr_pic_num as int, max_pic_num as int) {
            Some(l) => r matches Ok(v) && v@ == l,
            None => r matches Err(e) && e.is_invalid(),
        },
{
    if commands.len() == 0 {
        assert(Seq::<RefPicListEntry<'a, T>>::empty() + default_list@ =~= default_list@);
        return Ok(default_list);
    }
    let mut reordered_list: Vec<RefPicListEntry<'a, T>> = Vec::new();
    let mut ref_list = default_list;
    let mut pic_num_pred = curr_pic_num;
    let mut k: usize = 0;
    assert(commands@.skip(0) =~= commands@);
    while k < commands.len()
        invariant
            0 <= k <= commands@.len(),
            reorder_fits(ref_list@, commands@.skip(k as int), pic_num_pred as int, max_pic_num as int),
            reorder_spec(reordered_list@, ref_list@, commands@.skip(k as int), pic_num_pred as int, max_pic_num as int)
                == reorder_spec(Seq::empty(), default_list@, commands@, curr_pic_num as int, max_pic_num as int),
        ensures
            reorder_spec(reordered_list@, ref_list@, commands@.skip(k as int), pic_num_pred as int, max_pic_num as int)
                == Some(reordered_list@ + ref_list@),
            reorder_spec(reordered_list@, ref_list@, commands@.skip(k as int), pic_num_pred as int, max_pic_num as int)
                == reorder_spec(Seq::empty(), default_list@, commands@, curr_pic_num as int, max_pic_num as int),
        decreases commands@.len() - k,
    {
        let ghost rest_cmds = commands@.skip(k as int);
        assert(rest_cmds.drop_first() =~= commands@.skip(k as int + 1));
        assert(rest_cmds[0] == commands@[k as int]);
        let cmd = commands[k];
        match cmd {
            RplrCommand::End => {
                break;
            },
            RplrCommand::ShortTermSub { abs_diff_pic_num } => {
                let no_wrap = pic_num_pred - (abs_diff_pic_num as i32) - 1;
                let pic_num = if no_wrap < 0 { no_wrap + max_pic_num } else { no_wrap };
                match position_short(&ref_list, pic_num) {
                    Some(idx) => {
                        let entry = ref_list.remove(idx);
                        reordered_list.push(entry);
                        pic_num_pred = pic_num;
                    },
                    None => {
                        return Err(Error::invalid("RPLR", "Picture with the named pic_num not found"));
                    },
                }
            },
            RplrCommand::ShortTermAdd { abs_diff_pic_num } => {
                let no_wrap = pic_num_pred + (abs_diff_pic_num as i32) + 1;
                let pic_num = if no_wrap >= max_pic_num { no_wrap - max_pic_num } else { no_wrap };
                match position_short(&ref_list, pic_num) {
                    Some(idx) => {
                        let entry = ref_list.remove(idx);
                        reordered_list.push(entry);
                        pic_num_pred = pic_num;
                    },
                    None => {
                        return Err(Error::invalid("RPLR", "Picture with the named pic_num not found"));
                    },
                }
            },
            RplrCommand::LongTerm { long_term_pic_num } => {
                match position_long(&ref_list, long_term_pic_num) {
                    Some(idx) => {
                        let entry = ref_list.remove(idx);
                        reordered_list.push(entry);
                    },
                    None => {
                        return Err(Error::invalid("RPLR", "Long-term picture not found"));
                    },
                }
            },
        }
        k = k + 1;
    }
    let ghost front = reordered_list@;
    let ghost rest = ref_list@;
    reordered_list.append(&mut ref_list);
    assert(reordered_list@ =~= front + rest);
    Ok(reordered_list)
}

/// The picture number of a frame: its `frame_num` as `i32`.
pub fn calc_pic_num(frame_num: u32, max_frame_num: u32) -> (r: i32)
    ensures
        r == frame_num as i32,
{
    frame_num as i32
}

/// `MaxPicNum`: `1 << log2_max_frame_num` in `i32`.
pub fn calc_max_pic_num(log2_max_frame_num: u8) -> (r: i32)
    requires
        log2_max_frame_num <= 31,
    ensures
        log2_max_frame_num <= 30 ==> r == pow2(log2_max_frame_num as nat),
        log2_max_frame_num == 31 ==> r == i32::MIN,
{
    shl1_i32(log2_max_frame_num as u32)
}

} // verus!
