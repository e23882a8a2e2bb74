//! Decoded animation frames and the operations on frame sequences.
use vstd::prelude::*;
use crate::raster::{Picture, Raster};
use crate::types::AnimationInfo;

verus! {

/// A frame delay as a ratio of milliseconds, `numer / denom`.
#[derive(Debug, Clone, Copy, PartialEq, Eq, Structural)]
pub struct Delay {
    pub numer: u32,
    pub denom: u32,
}

/// The delay in whole milliseconds.
pub open spec fn delay_ms(d: Delay) -> int {
    if d.denom == 0 {
        0
    } else {
        d.numer as int / d.denom as int
    }
}

/// One frame of an animation: its pixels, its placement and its delay.
pub struct Frame {
    pub image: Raster,
    pub left: u32,
    pub top: u32,
    pub delay: Delay,
}

/// The mathematical value of a [`Frame`].
pub struct FrameModel {
    pub picture: Picture,
    pub left: u32,
    pub top: u32,
    pub delay: Delay,
}

impl FrameModel {
    pub open spec fn wf(self) -> bool {
        self.picture.wf() && self.delay.denom > 0
    }
}

impl View for Frame {
    type V = FrameModel;

    open spec fn view(&self) -> FrameModel {
        FrameModel { picture: self.image@, left: self.left, top: self.top, delay: self.delay }
    }
}

impl Frame {
    pub open spec fn wf(&self) -> bool {
        self@.wf()
    }
}

/// The models of a sequence of frames.
pub open spec fn frames_view(frames: Seq<Frame>) -> Seq<FrameModel> {
    frames.map_values(|f: Frame| f@)
}

/// Every frame is well formed.
pub open spec fn all_wf(frames: Seq<FrameModel>) -> bool {
    forall|i: int| 0 <= i < frames.len() ==> #[trigger] frames[i].wf()
}

/// Sum of the frame delays, in whole milliseconds each.
pub open spec fn total_delay_ms(frames: Seq<FrameModel>) -> int
    decreases frames.len(),
{
    if frames.len() == 0 {
        0
    } else {
        total_delay_ms(frames.drop_last()) + delay_ms(frames.last().delay)
    }
}

/// Frame count and mean delay of a frame sequence.
pub open spec fn animation_info_of(frames: Seq<FrameModel>) -> AnimationInfo {
    AnimationInfo {
        frame_count: if frames.len() > u32::MAX {
            u32::MAX
        } else {
            frames.len() as u32
        },
        frame_delay: if frames.len() > 1 {
            Some((total_delay_ms(frames) / frames.len() as int) as u64)
        } else {
            None
        },
    }
}

proof fn lemma_total_delay_bound(frames: Seq<FrameModel>)
    ensures
        0 <= total_delay_ms(frames) <= frames.len() * u32::MAX,
    decreases frames.len(),
{
    if frames.len() > 0 {
        lemma_total_delay_bound(frames.drop_last());
        let d = frames.last().delay;
        if d.denom > 0 {
            assert(d.numer as int / d.denom as int <= d.numer) by (nonlinear_arith)
                requires d.denom > 0;
        }
    }
}

impl AnimationInfo {
    /// Counts the frames and averages their delays (whole milliseconds each).
    pub fn from_frames(frames: &Vec<Frame>) -> (r: AnimationInfo)
        ensures
            r == animation_info_of(frames_view(frames@)),
    {
        let ghost s = frames_view(frames@);
        let n = frames.len();
        let mut total: u128 = 0;
        let mut i: usize = 0;
        while i < n
            invariant
                n == frames@.len(),
                s == frames_view(frames@),
                i <= n,
                total == total_delay_ms(s.take(i as int)),
            decreases n - i,
        {
            proof {
                assert(s.take(i as int + 1).drop_last() =~= s.take(i as int));
                lemma_total_delay_bound(s.take(i as int));
                assert(i * u32::MAX <= usize::MAX * u32::MAX) by (nonlinear_arith)
                    requires i <= usize::MAX;
            }
            let d = frames[i].delay;
            if d.denom > 0 {
                total = total + (d.numer / d.denom) as u128;
            }
            i += 1;
        }
        proof {
            assert(s.take(n as int) =~= s);
        }
        let frame_count = if n > u32::MAX as usize {
            u32::MAX
        } else {
            n as u32
        };
        let frame_delay = if n > 1 {
            proof {
                lemma_total_delay_bound(s);
                assert((total as int) / (n as int) <= u32::MAX) by (nonlinear_arith)
                    requires total <= n * u32::MAX, n > 1;
            }
            Some((total / n as u128) as u64)
        } else {
            None
        };
        AnimationInfo { frame_count, frame_delay }
    }
}

/// The frames in the opposite order.
pub fn reverse_frames(frames: Vec<Frame>) -> (r: Vec<Frame>)
    ensures
        frames_view(r@) == frames_view(frames@).reverse(),
{
    let ghost s = frames_view(frames@);
    let ghost n = frames@.len();
    let mut rest = frames;
    let mut out: Vec<Frame> = Vec::new();
    while rest.len() > 0
        invariant
            s == frames_view(frames@),
            n == frames@.len(),
            rest@ == frames@.take(rest@.len() as int),
            out@.len() + rest@.len() == n,
            forall|j: int| 0 <= j < out@.len() ==> #[trigger] out@[j]@ == s[n - 1 - j],
        decreases rest@.len(),
    {
        let f = rest.pop().unwrap();
        proof {
            assert(f@ == s[rest@.len() as int]);
        }
        out.push(f);
        proof {
            assert(rest@ =~= frames@.take(rest@.len() as int));
        }
    }
    proof {
        assert(frames_view(out@) =~= s.reverse());
    }
    out
}

/// Reversing the frame order twice gives back the same sequence, delays
/// included.
pub proof fn lemma_reverse_twice(frames: Seq<FrameModel>)
    ensures
        frames.reverse().reverse() == frames,
{
    assert(frames.reverse().reverse() =~= frames);
}

/// Every frame with its delay replaced by `delay`.
pub open spec fn retimed(frames: Seq<FrameModel>, delay: Delay) -> Seq<FrameModel> {
    frames.map_values(|f: FrameModel| FrameModel { delay, ..f })
}

/// Gives every frame the same delay; pixels and offsets are kept.
pub fn retime_frames(frames: Vec<Frame>, delay: Delay) -> (r: Vec<Frame>)
    ensures
        frames_view(r@) == retimed(frames_view(frames@), delay),
{
    let ghost s = frames_view(frames@);
    let ghost n = frames@.len();
    let mut rest = frames;
    let mut out: Vec<Frame> = Vec::new();
    while rest.len() > 0
        invariant
            s == frames_view(frames@),
            n == frames@.len(),
            rest@ == frames@.subrange(out@.len() as int, n as int),
            out@.len() + rest@.len() == n,
            forall|j: int| 0 <= j < out@.len() ==> #[trigger] out@[j]@ == retimed(s, delay)[j],
        decreases rest@.len(),
    {
        let f = rest.remove(0);
        let Frame { image, left, top, delay: _ } = f;
        out.push(Frame { image, left, top, delay });
        proof {
            assert(rest@ =~= frames@.subrange(out@.len() as int, n as int));
        }
    }
    proof {
        assert(frames_view(out@) =~= retimed(s, delay));
    }
    out
}

} // verus!
