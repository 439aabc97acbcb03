use vstd::prelude::*;

use crate::data::{PixelUpdate, Video};
use crate::process::frames_view;

verus! {

/// Number of frames that hold at least one update.
pub open spec fn nonempty_count(frames: Seq<Seq<PixelUpdate>>) -> nat
    decreases frames.len(),
{
    if frames.len() == 0 {
        0
    } else {
        nonempty_count(frames.drop_last()) + if frames.last().len() > 0 {
            1nat
        } else {
            0nat
        }
    }
}

/// Number of updates over all frames.
pub open spec fn total_updates(frames: Seq<Seq<PixelUpdate>>) -> nat
    decreases frames.len(),
{
    if frames.len() == 0 {
        0
    } else {
        total_updates(frames.drop_last()) + frames.last().len()
    }
}

/// Progress in percent: `100 * current / total`, and 100 when there is
/// nothing to do.
pub fn progress_percent(current: usize, total: usize) -> (p: usize)
    requires
        total > 0 ==> 100 * current <= usize::MAX,
    ensures
        p == if total > 0 {
            (100 * current) as int / total as int
        } else {
            100
        },
{
    if total > 0 {
        100 * current / total
    } else {
        100
    }
}

impl Video {
    /// Number of frames that still hold updates after optimisation.
    pub fn required_frames(&self) -> (n: usize)
        ensures
            n == nonempty_count(frames_view(self.frames@)),
    {
        let ghost fv = frames_view(self.frames@);
        let mut n: usize = 0;
        let mut k: usize = 0;
        while k < self.frames.len()
            invariant
                k <= self.frames@.len(),
                fv == frames_view(self.frames@),
                n == nonempty_count(fv.take(k as int)),
                n <= k,
            decreases self.frames@.len() - k,
        {
            assert(fv.take(k + 1).drop_last() =~= fv.take(k as int));
            assert(fv.take(k + 1).last() == self.frames@[k as int]@);
            if self.frames[k].len() > 0 {
                n = n + 1;
            }
            k = k + 1;
        }
        assert(fv.take(self.frames@.len() as int) =~= fv);
        n
    }

    /// Share of the frames that hold updates, in percent.
    pub fn required_percent(&self) -> (p: usize)
        requires
            self.frame_count > 0,
            100 * nonempty_count(frames_view(self.frames@)) <= usize::MAX,
        ensures
            p == (100 * nonempty_count(frames_view(self.frames@))) as int / self.frame_count as int,
    {
        let required = self.required_frames();
        100 * required / self.frame_count
    }

    /// Number of colour changes over the whole animation.
    pub fn change_triggers(&self) -> (n: usize)
        requires
            total_updates(frames_view(self.frames@)) <= usize::MAX,
        ensures
            n == total_updates(frames_view(self.frames@)),
    {
        let ghost fv = frames_view(self.frames@);
        let mut n: usize = 0;
        let mut k: usize = 0;
        while k < self.frames.len()
            invariant
                k <= self.frames@.len(),
                fv == frames_view(self.frames@),
                total_updates(fv) <= usize::MAX,
                n == total_updates(fv.take(k as int)),
            decreases self.frames@.len() - k,
        {
            assert(fv.take(k + 1).drop_last() =~= fv.take(k as int));
            assert(fv.take(k + 1).last() == self.frames@[k as int]@);
            proof {
                lemma_total_updates_prefix(fv, k + 1);
            }
            n = n + self.frames[k].len();
            k = k + 1;
        }
        assert(fv.take(self.frames@.len() as int) =~= fv);
        n
    }

    /// Number of pixels of a frame as a 16-bit count: width and height are
    /// each cut to 16 bits and multiplied in 16 bits.
    pub fn pixel_count(&self) -> (p: u16)
        requires
            (self.width % 65536) * (self.height % 65536) < 65536,
        ensures
            p == (self.width % 65536) * (self.height % 65536),
    {
        let w: u16 = (self.width % 65536) as u16;
        let h: u16 = (self.height % 65536) as u16;
        w * h
    }
}

proof fn lemma_total_updates_prefix(frames: Seq<Seq<PixelUpdate>>, k: int)
    requires
        0 <= k <= frames.len(),
    ensures
        total_updates(frames.take(k)) <= total_updates(frames),
    decreases frames.len(),
{
    if k < frames.len() {
        assert(frames.drop_last().take(k) =~= frames.take(k));
        lemma_total_updates_prefix(frames.drop_last(), k);
    } else {
        assert(frames.take(k) =~= frames);
    }
}

} // verus!
