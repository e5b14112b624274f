//! The timestamp schedule of frame-rate conversion on a 90 kHz clock: each input
//! frame is repeated, or dropped, so that output frames fall every
//! `output_pts_increment` ticks.
use vstd::prelude::*;
use crate::frame::{Frame, same_plane};
use crate::time::Pts;

verus! {

/// The position of the next output frame and the spacing of output frames, in
/// 90 kHz ticks.
pub struct FpsSchedule {
    pub next_output_pts: i64,
    pub output_pts_increment: i64,
}

/// The number of output stamps `next`, `next + inc`, ... that lie before `end`.
pub open spec fn stamp_count(next: int, inc: int, end: int) -> nat
    decreases (if next < end { end - next } else { 0 }),
{
    if next >= end || inc <= 0 { 0 } else { 1 + stamp_count(next + inc, inc, end) }
}

/// `f` is `input` with the timestamp `pts` and the duration `inc`.
pub open spec fn restamped(f: Frame, input: Frame, pts: int, inc: int) -> bool {
    &&& f.planes@.len() == input.planes@.len()
    &&& forall|i: int| 0 <= i < input.planes@.len() ==> #[trigger] same_plane(f.planes@[i], input.planes@[i])
    &&& f.pts == Some(Pts(pts as i64))
    &&& f.duration == Some(inc as i64)
    &&& f.width == input.width
    &&& f.height == input.height
    &&& f.pixel_format == input.pixel_format
    &&& f.sample_format == input.sample_format
    &&& f.sample_rate == input.sample_rate
    &&& f.samples == input.samples
    &&& f.channels == input.channels
}

/// The timestamp of an input frame, 0 where it has none.
pub open spec fn input_pts(f: Frame) -> int {
    match f.pts {
        Some(p) => p.0 as int,
        None => 0,
    }
}

impl FpsSchedule {
    /// A schedule that starts at 0 with the given spacing.
    pub fn new(output_pts_increment: i64) -> (s: FpsSchedule)
        ensures
            s.next_output_pts == 0,
            s.output_pts_increment == output_pts_increment,
    {
        FpsSchedule { next_output_pts: 0, output_pts_increment }
    }

    /// The output frames for an input frame that lasts `input_duration` ticks from
    /// its timestamp: one copy of the input for each output stamp before the input's
    /// end, each carrying its stamp and the output spacing as duration. None where
    /// the next stamp already lies past the input's end (the frame is dropped).
    pub fn process(&mut self, input: &Frame, input_duration: i64) -> (frames: Vec<Frame>)
        requires
            i64::MIN <= input_pts(*input) + input_duration <= i64::MAX,
            old(self).next_output_pts < input_pts(*input) + input_duration ==> {
                &&& old(self).output_pts_increment > 0
                &&& input_pts(*input) + input_duration + old(self).output_pts_increment <= i64::MAX
            },
        ensures
            frames@.len() == stamp_count(old(self).next_output_pts as int, old(self).output_pts_increment as int,
                input_pts(*input) + input_duration),
            forall|k: int| 0 <= k < frames@.len() ==> #[trigger] restamped(frames@[k], *input,
                old(self).next_output_pts + k * old(self).output_pts_increment, old(self).output_pts_increment as int),
            final(self).output_pts_increment == old(self).output_pts_increment,
            final(self).next_output_pts == old(self).next_output_pts + frames@.len() * old(self).output_pts_increment,
    {
        let start: i64 = match input.pts {
            Some(p) => p.0,
            None => 0,
        };
        let input_end_pts = start + input_duration;
        let ghost next0 = self.next_output_pts as int;
        let inc = self.output_pts_increment;
        let mut output_frames: Vec<Frame> = Vec::new();
        assert(0 * inc == 0);
        while self.next_output_pts < input_end_pts
            invariant
                self.output_pts_increment == inc,
                input_end_pts == input_pts(*input) + input_duration,
                next0 < input_end_pts ==> inc > 0 && input_end_pts + inc <= i64::MAX,
                self.next_output_pts == next0 + output_frames@.len() * inc,
                inc > 0 || self.next_output_pts == next0,
                inc > 0 ==> self.next_output_pts >= next0,
                stamp_count(next0, inc as int, input_end_pts as int)
                    == output_frames@.len() + stamp_count(self.next_output_pts as int, inc as int, input_end_pts as int),
                forall|k: int| 0 <= k < output_frames@.len() ==> #[trigger] restamped(output_frames@[k], *input,
                    next0 + k * inc, inc as int),
            decreases input_end_pts + inc - self.next_output_pts,
        {
            let mut output_frame = input.clone();
            output_frame.pts = Some(Pts(self.next_output_pts));
            output_frame.duration = Some(inc);
            let ghost k = output_frames@.len();
            output_frames.push(output_frame);
            proof {
                assert((k + 1) * inc == k * inc + inc) by (nonlinear_arith);
                assert(restamped(output_frames@[k as int], *input, next0 + k * inc, inc as int));
            }
            self.next_output_pts = self.next_output_pts + inc;
        }
        output_frames
    }
}

/// The output stamps for an input are exactly those before its end: with a positive
/// spacing `inc`, none when the next stamp is at or past `end`, and otherwise `c >= 1`
/// stamps `next`, ..., `next + (c - 1) * inc`, the last before `end` and the one
/// after it, `next + c * inc`, at or past `end`.
pub proof fn lemma_stamp_count(next: int, inc: int, end: int)
    requires
        inc > 0,
    ensures
        next >= end ==> stamp_count(next, inc, end) == 0,
        next < end ==> {
            let c = stamp_count(next, inc, end) as int;
            &&& c >= 1
            &&& next + (c - 1) * inc < end
            &&& end <= next + c * inc
        },
    decreases (if next < end { end - next } else { 0 }),
{
    if next < end {
        lemma_stamp_count(next + inc, inc, end);
        let c1 = stamp_count(next + inc, inc, end) as int;
        assert(next + inc + (c1 - 1) * inc == next + c1 * inc) by (nonlinear_arith);
        assert(next + inc + c1 * inc == next + (c1 + 1) * inc) by (nonlinear_arith);
    }
}

} // verus!
