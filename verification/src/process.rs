use vstd::prelude::*;

use crate::data::{Color, Optimization, PixelUpdate, Video};
use crate::util::{flatten_int, spec_flatten_int, spec_position};

verus! {

/// The frames as sequences of updates.
pub open spec fn frames_view(frames: Seq<Vec<PixelUpdate>>) -> Seq<Seq<PixelUpdate>> {
    frames.map_values(|f: Vec<PixelUpdate>| f@)
}

/// The updates of a frame given as packed RGB bytes: the `i`-th pixel is
/// quantised to `bits` bits and placed at its row-major position.
pub open spec fn spec_frame_updates(rgb: Seq<u8>, width: int, bits: u8) -> Seq<PixelUpdate> {
    Seq::new(
        rgb.len() / 3,
        |i: int|
            PixelUpdate {
                position: spec_position(i, width),
                color: Color {
                    r: spec_flatten_int(rgb[3 * i], bits),
                    g: spec_flatten_int(rgb[3 * i + 1], bits),
                    b: spec_flatten_int(rgb[3 * i + 2], bits),
                },
            },
    )
}

/// Whether the `i`-th update of frame `k` survives differencing.
pub open spec fn keeps(frames: Seq<Seq<PixelUpdate>>, k: int, i: int, opt: Optimization) -> bool {
    let cur = frames[k][i];
    match opt {
        Optimization::Off => true,
        Optimization::Forward => !(k > 0 && cur == frames[k - 1][i]),
        Optimization::Backward => !(k + 1 < frames.len() && cur == frames[k + 1][i]),
        Optimization::Both => !(k > 0 && k + 1 < frames.len() && cur == frames[k - 1][i] && cur
            == frames[k + 1][i]),
    }
}

/// The surviving updates among the first `j` updates of frame `k`, in order.
pub open spec fn kept_prefix(frames: Seq<Seq<PixelUpdate>>, k: int, opt: Optimization, j: int) -> Seq<
    PixelUpdate,
>
    decreases j,
{
    if j <= 0 {
        seq![]
    } else {
        kept_prefix(frames, k, opt, j - 1) + if keeps(frames, k, j - 1, opt) {
            seq![frames[k][j - 1]]
        } else {
            seq![]
        }
    }
}

/// The surviving updates of frame `k`.
pub open spec fn spec_changes(frames: Seq<Seq<PixelUpdate>>, k: int, opt: Optimization) -> Seq<
    PixelUpdate,
> {
    kept_prefix(frames, k, opt, frames[k].len() as int)
}

/// The differenced animation: frame by frame, the surviving updates.
pub open spec fn spec_optimize(frames: Seq<Seq<PixelUpdate>>, opt: Optimization) -> Seq<
    Seq<PixelUpdate>,
> {
    Seq::new(frames.len(), |k: int| spec_changes(frames, k, opt))
}

/// Differencing frame `k` reads only pixels that exist: every pixel it
/// compares against a neighbouring frame has a counterpart there.
pub open spec fn frame_comparable(frames: Seq<Seq<PixelUpdate>>, k: int, opt: Optimization) -> bool {
    let n = frames.len();
    match opt {
        Optimization::Off => true,
        Optimization::Forward => k > 0 ==> frames[k - 1].len() >= frames[k].len(),
        Optimization::Backward => k + 1 < n ==> frames[k + 1].len() >= frames[k].len(),
        Optimization::Both => (k > 0 && k + 1 < n) ==> {
            &&& frames[k - 1].len() >= frames[k].len()
            &&& forall|i: int|
                0 <= i < frames[k].len() && #[trigger] frames[k][i] == frames[k - 1][i] ==> i
                    < frames[k + 1].len()
        },
    }
}

/// Every frame can be differenced against its neighbours.
pub open spec fn frames_comparable(frames: Seq<Seq<PixelUpdate>>, opt: Optimization) -> bool {
    forall|k: int| 0 <= k < frames.len() ==> #[trigger] frame_comparable(frames, k, opt)
}

impl Video {
    /// Turns the packed RGB bytes of one scaled frame into its pixel
    /// updates, quantising each colour to the video's precision.
    pub fn frame_updates(&self, rgb: &Vec<u8>) -> (updates: Vec<PixelUpdate>)
        requires
            self.color_precision <= 8,
            rgb@.len() % 3 == 0,
            rgb@.len() > 0 ==> self.width > 0,
        ensures
            updates@ == spec_frame_updates(rgb@, self.width as int, self.color_precision),
    {
        let len = rgb.len();
        let count = len / 3;
        let bits = self.color_precision;
        let mut updates: Vec<PixelUpdate> = Vec::new();
        let mut i: usize = 0;
        while i < count
            invariant
                len == rgb@.len(),
                count == rgb@.len() / 3,
                rgb@.len() % 3 == 0,
                bits == self.color_precision,
                bits <= 8,
                count > 0 ==> self.width > 0,
                i <= count,
                updates@ =~= spec_frame_updates(rgb@, self.width as int, bits).take(i as int),
            decreases count - i,
        {
            assert(3 * i + 3 <= rgb@.len()) by (nonlinear_arith)
                requires
                    i < count,
                    count == rgb@.len() / 3,
            ;
            let color = Color {
                r: flatten_int(rgb[3 * i], bits),
                g: flatten_int(rgb[3 * i + 1], bits),
                b: flatten_int(rgb[3 * i + 2], bits),
            };
            updates.push(color.to_pixel_update(i, self.width));
            i = i + 1;
        }
        updates
    }

    /// Differences the frames according to the video's optimisation mode:
    /// each output frame holds, in order, the updates of the input frame
    /// that the mode keeps.
    pub fn optimize_frames(&self, frames: Vec<Vec<PixelUpdate>>) -> (changes: Vec<Vec<PixelUpdate>>)
        requires
            frames_comparable(frames_view(frames@), self.optimization),
        ensures
            frames_view(changes@) == spec_optimize(frames_view(frames@), self.optimization),
    {
        let ghost fv = frames_view(frames@);
        let opt = self.optimization;
        let n = frames.len();
        let mut out: Vec<Vec<PixelUpdate>> = Vec::new();
        let mut k: usize = 0;
        while k < n
            invariant
                n == frames@.len(),
                fv == frames_view(frames@),
                opt == self.optimization,
                frames_comparable(fv, opt),
                k <= n,
                out@.len() == k,
                forall|j: int| 0 <= j < k ==> (#[trigger] out@[j])@ == spec_changes(fv, j, opt),
            decreases n - k,
        {
            let cur = &frames[k];
            assert(cur@ == fv[k as int]);
            assert(frame_comparable(fv, k as int, opt));
            if k > 0 {
                assert(frames@[k - 1]@ == fv[k - 1]);
            }
            if k + 1 < n {
                assert(frames@[k + 1]@ == fv[k + 1]);
            }
            let mut kept: Vec<PixelUpdate> = Vec::new();
            let mut i: usize = 0;
            while i < cur.len()
                invariant
                    n == frames@.len(),
                    fv == frames_view(frames@),
                    0 <= k < n,
                    cur@ == fv[k as int],
                    k > 0 ==> frames@[k - 1]@ == fv[k - 1],
                    k + 1 < n ==> frames@[k + 1]@ == fv[k + 1],
                    frame_comparable(fv, k as int, opt),
                    i <= cur@.len(),
                    kept@ == kept_prefix(fv, k as int, opt, i as int),
                decreases cur@.len() - i,
            {
                let keep = match opt {
                    Optimization::Off => true,
                    Optimization::Forward => {
                        if k > 0 {
                            !(cur[i] == frames[k - 1][i])
                        } else {
                            true
                        }
                    },
                    Optimization::Backward => {
                        if k + 1 < n {
                            !(cur[i] == frames[k + 1][i])
                        } else {
                            true
                        }
                    },
                    Optimization::Both => {
                        if k > 0 && k + 1 < n {
                            !(cur[i] == frames[k - 1][i] && cur[i] == frames[k + 1][i])
                        } else {
                            true
                        }
                    },
                };
                assert(keep == keeps(fv, k as int, i as int, opt));
                if keep {
                    kept.push(cur[i]);
                }
                i = i + 1;
            }
            out.push(kept);
            k = k + 1;
        }
        assert(frames_view(out@) =~= spec_optimize(fv, opt));
        out
    }
}

} // verus!
