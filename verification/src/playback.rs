use vstd::prelude::*;

use crate::data::{lemma_optimization_names_distinct, Color, Optimization, PixelUpdate};
use crate::process::{frame_comparable, frames_comparable, keeps, kept_prefix, spec_changes, spec_frame_updates, spec_optimize};
use crate::stats::total_updates;
use crate::util::spec_position;

verus! {

/// Frames that all cover the same pixels in the same order, no pixel
/// twice: the shape of every frame produced from one video.
pub open spec fn aligned(frames: Seq<Seq<PixelUpdate>>) -> bool {
    &&& forall|k: int| 0 <= k < frames.len() ==> #[trigger] frames[k].len() == frames[0].len()
    &&& forall|k: int, i: int|
        0 <= k < frames.len() && 0 <= i < frames[0].len() ==> #[trigger] frames[k][i].position
            == frames[0][i].position
    &&& frames.len() > 0 ==> forall|i: int, j: int|
        #![trigger frames[0][i], frames[0][j]]
        0 <= i < j < frames[0].len() ==> frames[0][i].position != frames[0][j].position
}

/// The colour that the last update of `updates` aimed at `pos` paints, if any.
pub open spec fn last_color(updates: Seq<PixelUpdate>, pos: (usize, usize)) -> Option<Color>
    decreases updates.len(),
{
    if updates.len() == 0 {
        None
    } else if updates.last().position == pos {
        Some(updates.last().color)
    } else {
        last_color(updates.drop_last(), pos)
    }
}

/// The colour shown at `pos` once frames `0..=k` of `anim` have been
/// played in order, each update repainting its pixel.
pub open spec fn shown(anim: Seq<Seq<PixelUpdate>>, k: int, pos: (usize, usize)) -> Option<Color>
    decreases k + 1,
{
    if k < 0 {
        None
    } else {
        match last_color(anim[k], pos) {
            Some(c) => Some(c),
            None => shown(anim, k - 1, pos),
        }
    }
}

/// The frames in the opposite order.
pub open spec fn reversed<T>(s: Seq<T>) -> Seq<T> {
    Seq::new(s.len(), |k: int| s[s.len() - 1 - k])
}

proof fn lemma_position_injective(i: int, j: int, width: int)
    requires
        width > 0,
        0 <= i <= usize::MAX,
        0 <= j <= usize::MAX,
        i != j,
    ensures
        spec_position(i, width) != spec_position(j, width),
{
    assert(i == (i / width) * width + i % width && j == (j / width) * width + j % width)
        by (nonlinear_arith)
        requires
            width > 0,
    ;
    if i / width == j / width && i % width == j % width {
        assert(false);
    }
    assert(0 <= i % width < width && 0 <= j % width < width);
    assert(0 <= i / width <= i && 0 <= j / width <= j) by (nonlinear_arith)
        requires
            width > 0,
            i >= 0,
            j >= 0,
    ;
    assert(i % width <= i && j % width <= j) by (nonlinear_arith)
        requires
            width > 0,
            i >= 0,
            j >= 0,
    ;
}

/// Frames made by processing same-sized decoded images at one width are
/// aligned, so the playback laws hold of the library's own output.
pub proof fn lemma_processed_frames_aligned(
    frames: Seq<Seq<PixelUpdate>>,
    images: Seq<Seq<u8>>,
    width: int,
    bits: u8,
)
    requires
        width > 0,
        images.len() > 0 ==> images[0].len() <= usize::MAX,
        frames.len() == images.len(),
        forall|k: int| 0 <= k < images.len() ==> #[trigger] images[k].len() == images[0].len(),
        forall|k: int|
            0 <= k < frames.len() ==> #[trigger] frames[k] == spec_frame_updates(images[k], width, bits),
    ensures
        aligned(frames),
{
    if frames.len() > 0 {
        assert forall|k: int| 0 <= k < frames.len() implies #[trigger] frames[k].len()
            == frames[0].len() by {
            assert(frames[k] == spec_frame_updates(images[k], width, bits));
            assert(frames[0] == spec_frame_updates(images[0], width, bits));
        }
        assert forall|k: int, i: int|
            0 <= k < frames.len() && 0 <= i < frames[0].len() implies #[trigger] frames[k][i].position
            == frames[0][i].position by {
            assert(frames[k] == spec_frame_updates(images[k], width, bits));
            assert(frames[0] == spec_frame_updates(images[0], width, bits));
        }
        assert forall|i: int, j: int| 0 <= i < j < frames[0].len() implies frames[0][i].position
            != frames[0][j].position by {
            assert(frames[0] == spec_frame_updates(images[0], width, bits));
            lemma_position_injective(i, j, width);
        }
    }
}

/// Aligned frames can be differenced in every mode.
pub proof fn lemma_aligned_comparable(frames: Seq<Seq<PixelUpdate>>, opt: Optimization)
    requires
        aligned(frames),
    ensures
        frames_comparable(frames, opt),
{
    assert forall|k: int| 0 <= k < frames.len() implies #[trigger] frame_comparable(frames, k, opt) by {
        assert(frames[k].len() == frames[0].len());
        if k > 0 {
            assert(frames[k - 1].len() == frames[0].len());
        }
        if k + 1 < frames.len() {
            assert(frames[k + 1].len() == frames[0].len());
        }
    }
}

proof fn lemma_distinct_positions(frames: Seq<Seq<PixelUpdate>>, k: int, i: int, j: int)
    requires
        aligned(frames),
        0 <= k < frames.len(),
        0 <= i < frames[k].len(),
        0 <= j < frames[k].len(),
        i != j,
    ensures
        frames[k][i].position != frames[k][j].position,
{
    assert(frames[k][i].position == frames[0][i].position);
    assert(frames[k][j].position == frames[0][j].position);
    if i < j {
        assert(frames[0][i].position != frames[0][j].position);
    } else {
        assert(frames[0][j].position != frames[0][i].position);
    }
}

proof fn lemma_last_color_kept(
    frames: Seq<Seq<PixelUpdate>>,
    k: int,
    opt: Optimization,
    j: int,
    i: int,
)
    requires
        aligned(frames),
        0 <= k < frames.len(),
        0 <= i < frames[k].len(),
        0 <= j <= frames[k].len(),
    ensures
        last_color(kept_prefix(frames, k, opt, j), frames[k][i].position) == if i < j && keeps(
            frames,
            k,
            i,
            opt,
        ) {
            Some(frames[k][i].color)
        } else {
            None::<Color>
        },
    decreases j,
{
    if j > 0 {
        lemma_last_color_kept(frames, k, opt, j - 1, i);
        let prev = kept_prefix(frames, k, opt, j - 1);
        if keeps(frames, k, j - 1, opt) {
            let s = prev + seq![frames[k][j - 1]];
            assert(kept_prefix(frames, k, opt, j) == s);
            assert(s.drop_last() =~= prev);
            assert(s.last() == frames[k][j - 1]);
            if j - 1 != i {
                lemma_distinct_positions(frames, k, i, j - 1);
            }
        } else {
            assert(kept_prefix(frames, k, opt, j) =~= prev);
        }
    }
}

proof fn lemma_replay_at(frames: Seq<Seq<PixelUpdate>>, opt: Optimization, k: int, i: int)
    requires
        aligned(frames),
        opt != Optimization::Backward,
        0 <= k < frames.len(),
        0 <= i < frames[k].len(),
    ensures
        shown(spec_optimize(frames, opt), k, frames[k][i].position) == Some(frames[k][i].color),
    decreases k,
{
    let anim = spec_optimize(frames, opt);
    assert(anim[k] == spec_changes(frames, k, opt));
    lemma_last_color_kept(frames, k, opt, frames[k].len() as int, i);
    if !keeps(frames, k, i, opt) {
        assert(k > 0 && frames[k][i] == frames[k - 1][i]);
        assert(frames[k].len() == frames[0].len() && frames[k - 1].len() == frames[0].len());
        lemma_replay_at(frames, opt, k - 1, i);
    }
}

/// Playing a differenced video from its first frame on reproduces every
/// frame: after frames `0..=k` of the output have been painted, each pixel
/// shows its colour in input frame `k`. This holds for every mode but
/// `Backward`, whose output is meant to be played from the last frame.
pub proof fn lemma_forward_replay(frames: Seq<Seq<PixelUpdate>>, opt: Optimization)
    requires
        aligned(frames),
        opt != Optimization::Backward,
    ensures
        forall|k: int, i: int|
            0 <= k < frames.len() && 0 <= i < frames[k].len() ==> #[trigger] shown(
                spec_optimize(frames, opt),
                k,
                frames[k][i].position,
            ) == Some(frames[k][i].color),
{
    assert forall|k: int, i: int| 0 <= k < frames.len() && 0 <= i < frames[k].len() implies #[trigger] shown(
        spec_optimize(frames, opt),
        k,
        frames[k][i].position,
    ) == Some(frames[k][i].color) by {
        lemma_replay_at(frames, opt, k, i);
    }
}

proof fn lemma_backward_prefix(frames: Seq<Seq<PixelUpdate>>, k: int, j: int)
    requires
        0 <= k < frames.len(),
        0 <= j <= frames[k].len(),
    ensures
        kept_prefix(frames, k, Optimization::Backward, j) == kept_prefix(
            reversed(frames),
            frames.len() - 1 - k,
            Optimization::Forward,
            j,
        ),
    decreases j,
{
    let rev = reversed(frames);
    let kr = frames.len() - 1 - k;
    assert(rev[kr] == frames[k]);
    if kr > 0 {
        assert(rev[kr - 1] == frames[k + 1]);
    }
    if j > 0 {
        lemma_backward_prefix(frames, k, j - 1);
        assert(keeps(frames, k, j - 1, Optimization::Backward) == keeps(
            rev,
            kr,
            j - 1,
            Optimization::Forward,
        ));
    }
}

/// `Backward` is `Forward` run on the video played backwards: differencing
/// each frame against its successor gives, frame by frame, what
/// differencing the reversed video against predecessors gives.
pub proof fn lemma_backward_is_reversed_forward(frames: Seq<Seq<PixelUpdate>>)
    ensures
        spec_optimize(frames, Optimization::Backward) == reversed(
            spec_optimize(reversed(frames), Optimization::Forward),
        ),
{
    let rev = reversed(frames);
    let lhs = spec_optimize(frames, Optimization::Backward);
    let rhs = reversed(spec_optimize(rev, Optimization::Forward));
    assert forall|k: int| 0 <= k < frames.len() implies lhs[k] == rhs[k] by {
        assert(rev[frames.len() - 1 - k] == frames[k]);
        lemma_backward_prefix(frames, k, frames[k].len() as int);
    }
    assert(lhs =~= rhs);
}

/// Played from its last frame towards its first, a `Backward`-differenced
/// video reproduces every frame: after frames `k..` of the output have been
/// painted in reverse order, each pixel shows its colour in input frame `k`.
pub proof fn lemma_backward_replay(frames: Seq<Seq<PixelUpdate>>)
    requires
        aligned(frames),
    ensures
        forall|k: int, i: int|
            0 <= k < frames.len() && 0 <= i < frames[k].len() ==> #[trigger] shown(
                reversed(spec_optimize(frames, Optimization::Backward)),
                frames.len() - 1 - k,
                frames[k][i].position,
            ) == Some(frames[k][i].color),
{
    let n = frames.len();
    let rev = reversed(frames);
    if n > 0 {
        assert forall|k: int| 0 <= k < rev.len() implies #[trigger] rev[k].len() == rev[0].len() by {
            assert(frames[n - 1 - k].len() == frames[0].len());
            assert(frames[n - 1].len() == frames[0].len());
        }
        assert forall|k: int, i: int|
            0 <= k < rev.len() && 0 <= i < rev[0].len() implies #[trigger] rev[k][i].position
            == rev[0][i].position by {
            assert(frames[n - 1].len() == frames[0].len());
            assert(frames[n - 1 - k][i].position == frames[0][i].position);
            assert(frames[n - 1][i].position == frames[0][i].position);
        }
        assert forall|i: int, j: int| 0 <= i < j < rev[0].len() implies rev[0][i].position
            != rev[0][j].position by {
            assert(frames[n - 1].len() == frames[0].len());
            lemma_distinct_positions(frames, n - 1, i, j);
        }
        assert(aligned(rev));
        lemma_forward_replay(rev, Optimization::Forward);
        lemma_backward_is_reversed_forward(frames);
        let fwd = spec_optimize(rev, Optimization::Forward);
        assert(reversed(reversed(fwd)) =~= fwd);
        assert forall|k: int, i: int| 0 <= k < n && 0 <= i < frames[k].len() implies #[trigger] shown(
            reversed(spec_optimize(frames, Optimization::Backward)),
            n - 1 - k,
            frames[k][i].position,
        ) == Some(frames[k][i].color) by {
            assert(rev[n - 1 - k] == frames[k]);
            assert(shown(fwd, n - 1 - k, rev[n - 1 - k][i].position) == Some(
                rev[n - 1 - k][i].color,
            ));
        }
    }
}

proof fn lemma_kept_len_monotone(
    frames: Seq<Seq<PixelUpdate>>,
    k: int,
    weaker: Optimization,
    stronger: Optimization,
    j: int,
)
    requires
        0 <= k < frames.len(),
        0 <= j <= frames[k].len(),
        forall|i: int|
            0 <= i < frames[k].len() && #[trigger] keeps(frames, k, i, stronger) ==> keeps(
                frames,
                k,
                i,
                weaker,
            ),
    ensures
        kept_prefix(frames, k, stronger, j).len() <= kept_prefix(frames, k, weaker, j).len(),
    decreases j,
{
    if j > 0 {
        lemma_kept_len_monotone(frames, k, weaker, stronger, j - 1);
        if keeps(frames, k, j - 1, stronger) {
            assert(keeps(frames, k, j - 1, weaker));
        }
    }
}

/// Whether `a` can be obtained from `b` by deleting updates (matching the
/// last update of `a` to its latest occurrence in `b`).
pub open spec fn is_subsequence(a: Seq<PixelUpdate>, b: Seq<PixelUpdate>) -> bool
    decreases b.len(),
{
    if a.len() == 0 {
        true
    } else if b.len() == 0 {
        false
    } else if a.last() == b.last() {
        is_subsequence(a.drop_last(), b.drop_last())
    } else {
        is_subsequence(a, b.drop_last())
    }
}

proof fn lemma_subsequence_drop_last(a: Seq<PixelUpdate>, b: Seq<PixelUpdate>)
    requires
        is_subsequence(a, b),
        a.len() > 0,
    ensures
        is_subsequence(a.drop_last(), b),
    decreases b.len(),
{
    let ad = a.drop_last();
    if ad.len() > 0 {
        if a.last() == b.last() {
            lemma_subsequence_drop_last(ad, b.drop_last());
        } else {
            lemma_subsequence_drop_last(a, b.drop_last());
            lemma_subsequence_drop_last(ad, b.drop_last());
        }
    }
}

proof fn lemma_subsequence_extend(a: Seq<PixelUpdate>, b: Seq<PixelUpdate>, x: PixelUpdate)
    requires
        is_subsequence(a, b),
    ensures
        is_subsequence(a, b.push(x)),
{
    assert(b.push(x).drop_last() =~= b);
    if a.len() > 0 && a.last() == x {
        lemma_subsequence_drop_last(a, b);
    }
}

proof fn lemma_kept_subsequence(
    frames: Seq<Seq<PixelUpdate>>,
    k: int,
    weaker: Optimization,
    stronger: Optimization,
    j: int,
)
    requires
        0 <= k < frames.len(),
        0 <= j <= frames[k].len(),
        forall|i: int|
            0 <= i < frames[k].len() && #[trigger] keeps(frames, k, i, stronger) ==> keeps(
                frames,
                k,
                i,
                weaker,
            ),
    ensures
        is_subsequence(kept_prefix(frames, k, stronger, j), kept_prefix(frames, k, weaker, j)),
    decreases j,
{
    if j > 0 {
        lemma_kept_subsequence(frames, k, weaker, stronger, j - 1);
        let a = kept_prefix(frames, k, stronger, j - 1);
        let b = kept_prefix(frames, k, weaker, j - 1);
        let x = frames[k][j - 1];
        if keeps(frames, k, j - 1, stronger) {
            assert(keeps(frames, k, j - 1, weaker));
            let a2 = kept_prefix(frames, k, stronger, j);
            let b2 = kept_prefix(frames, k, weaker, j);
            assert(a2 =~= a.push(x));
            assert(b2 =~= b.push(x));
            assert(a2.drop_last() =~= a);
            assert(b2.drop_last() =~= b);
        } else {
            assert(kept_prefix(frames, k, stronger, j) =~= a);
            if keeps(frames, k, j - 1, weaker) {
                assert(kept_prefix(frames, k, weaker, j) =~= b.push(x));
                lemma_subsequence_extend(a, b, x);
            } else {
                assert(kept_prefix(frames, k, weaker, j) =~= b);
            }
        }
    } else {
        assert(kept_prefix(frames, k, stronger, 0).len() == 0);
    }
}

proof fn lemma_total_updates_monotone(a: Seq<Seq<PixelUpdate>>, b: Seq<Seq<PixelUpdate>>)
    requires
        a.len() == b.len(),
        forall|k: int| 0 <= k < a.len() ==> (#[trigger] a[k]).len() <= b[k].len(),
    ensures
        total_updates(a) <= total_updates(b),
    decreases a.len(),
{
    if a.len() > 0 {
        let n = a.len() - 1;
        assert forall|k: int| 0 <= k < a.drop_last().len() implies (#[trigger] a.drop_last()[k]).len()
            <= b.drop_last()[k].len() by {
            assert(a.drop_last()[k] == a[k] && b.drop_last()[k] == b[k]);
        }
        lemma_total_updates_monotone(a.drop_last(), b.drop_last());
        assert(a[n].len() <= b[n].len());
    }
}

/// `Both` keeps every update that `Forward` or `Backward` keeps: each of
/// its frames has theirs as subsequences, so it holds at least as many
/// updates frame by frame and over the whole video.
pub proof fn lemma_both_keeps_most(frames: Seq<Seq<PixelUpdate>>, k: int)
    requires
        0 <= k < frames.len(),
    ensures
        is_subsequence(
            spec_changes(frames, k, Optimization::Forward),
            spec_changes(frames, k, Optimization::Both),
        ),
        is_subsequence(
            spec_changes(frames, k, Optimization::Backward),
            spec_changes(frames, k, Optimization::Both),
        ),
        spec_changes(frames, k, Optimization::Forward).len() <= spec_changes(
            frames,
            k,
            Optimization::Both,
        ).len(),
        spec_changes(frames, k, Optimization::Backward).len() <= spec_changes(
            frames,
            k,
            Optimization::Both,
        ).len(),
{
    lemma_kept_len_monotone(frames, k, Optimization::Both, Optimization::Forward, frames[k].len() as int);
    lemma_kept_len_monotone(frames, k, Optimization::Both, Optimization::Backward, frames[k].len() as int);
    lemma_kept_subsequence(frames, k, Optimization::Both, Optimization::Forward, frames[k].len() as int);
    lemma_kept_subsequence(frames, k, Optimization::Both, Optimization::Backward, frames[k].len() as int);
}

/// Over the whole video, `Both` emits at least as many updates as
/// `Forward` and as `Backward`.
pub proof fn lemma_both_uses_most_updates(frames: Seq<Seq<PixelUpdate>>)
    ensures
        total_updates(spec_optimize(frames, Optimization::Forward)) <= total_updates(
            spec_optimize(frames, Optimization::Both),
        ),
        total_updates(spec_optimize(frames, Optimization::Backward)) <= total_updates(
            spec_optimize(frames, Optimization::Both),
        ),
{
    let both = spec_optimize(frames, Optimization::Both);
    let fwd = spec_optimize(frames, Optimization::Forward);
    let bwd = spec_optimize(frames, Optimization::Backward);
    assert forall|k: int| 0 <= k < fwd.len() implies (#[trigger] fwd[k]).len() <= both[k].len() && bwd[k].len()
        <= both[k].len() by {
        lemma_both_keeps_most(frames, k);
    }
    assert forall|k: int| 0 <= k < bwd.len() implies (#[trigger] bwd[k]).len() <= both[k].len() by {
        lemma_both_keeps_most(frames, k);
    }
    lemma_total_updates_monotone(fwd, both);
    lemma_total_updates_monotone(bwd, both);
}

proof fn lemma_off_prefix(frames: Seq<Seq<PixelUpdate>>, k: int, j: int)
    requires
        0 <= k < frames.len(),
        0 <= j <= frames[k].len(),
    ensures
        kept_prefix(frames, k, Optimization::Off, j) == frames[k].take(j),
    decreases j,
{
    if j > 0 {
        lemma_off_prefix(frames, k, j - 1);
        assert(frames[k].take(j) =~= frames[k].take(j - 1) + seq![frames[k][j - 1]]);
    } else {
        assert(frames[k].take(0) =~= Seq::<PixelUpdate>::empty());
    }
}

/// Without optimisation every update of every frame is kept, in order.
pub proof fn lemma_off_keeps_everything(frames: Seq<Seq<PixelUpdate>>)
    ensures
        spec_optimize(frames, Optimization::Off) == frames,
{
    assert forall|k: int| 0 <= k < frames.len() implies spec_optimize(frames, Optimization::Off)[k]
        == frames[k] by {
        lemma_off_prefix(frames, k, frames[k].len() as int);
        assert(frames[k].take(frames[k].len() as int) =~= frames[k]);
    }
    assert(spec_optimize(frames, Optimization::Off) =~= frames);
}

/// What each mode, picked by its command-line name, leaves of a pixel in
/// output frame `k` of an aligned video: `none` keeps it; `forward` drops
/// it exactly when it equals the same pixel of the previous frame;
/// `backward` exactly when it equals the next frame's; `both` exactly when
/// it equals the pixel in both neighbouring frames. A kept pixel is painted
/// with its own colour; a dropped one is not painted in that frame at all.
pub proof fn lemma_named_modes(frames: Seq<Seq<PixelUpdate>>, mode: Optimization, k: int, i: int)
    requires
        aligned(frames),
        0 <= k < frames.len(),
        0 <= i < frames[k].len(),
    ensures
        mode.name() == "none"@ ==> last_color(spec_optimize(frames, mode)[k], frames[k][i].position)
            == Some(frames[k][i].color),
        mode.name() == "forward"@ ==> last_color(spec_optimize(frames, mode)[k], frames[k][i].position)
            == if k > 0 && frames[k][i] == frames[k - 1][i] {
            None::<Color>
        } else {
            Some(frames[k][i].color)
        },
        mode.name() == "backward"@ ==> last_color(spec_optimize(frames, mode)[k], frames[k][i].position)
            == if k + 1 < frames.len() && frames[k][i] == frames[k + 1][i] {
            None::<Color>
        } else {
            Some(frames[k][i].color)
        },
        mode.name() == "both"@ ==> last_color(spec_optimize(frames, mode)[k], frames[k][i].position)
            == if k > 0 && k + 1 < frames.len() && frames[k][i] == frames[k - 1][i] && frames[k][i]
            == frames[k + 1][i] {
            None::<Color>
        } else {
            Some(frames[k][i].color)
        },
{
    assert(spec_optimize(frames, mode)[k] == spec_changes(frames, k, mode));
    lemma_last_color_kept(frames, k, mode, frames[k].len() as int, i);
    if mode.name() == "none"@ {
        lemma_optimization_names_distinct(mode, Optimization::Off);
    }
    if mode.name() == "forward"@ {
        lemma_optimization_names_distinct(mode, Optimization::Forward);
    }
    if mode.name() == "backward"@ {
        lemma_optimization_names_distinct(mode, Optimization::Backward);
    }
    if mode.name() == "both"@ {
        lemma_optimization_names_distinct(mode, Optimization::Both);
    }
}

proof fn lemma_nothing_kept(frames: Seq<Seq<PixelUpdate>>, k: int, opt: Optimization, j: int)
    requires
        0 <= k < frames.len(),
        0 <= j <= frames[k].len(),
        forall|i: int| 0 <= i < frames[k].len() ==> !#[trigger] keeps(frames, k, i, opt),
    ensures
        kept_prefix(frames, k, opt, j).len() == 0,
    decreases j,
{
    if j > 0 {
        lemma_nothing_kept(frames, k, opt, j - 1);
        assert(!keeps(frames, k, j - 1, opt));
    }
}

/// On a still video (every frame equal to the first), `forward` empties
/// every frame but the first, `backward` every frame but the last, and
/// `both` every frame but the first and the last.
pub proof fn lemma_still_video(frames: Seq<Seq<PixelUpdate>>, k: int)
    requires
        forall|j: int| 0 <= j < frames.len() ==> #[trigger] frames[j] == frames[0],
        0 <= k < frames.len(),
    ensures
        k > 0 ==> spec_optimize(frames, Optimization::Forward)[k].len() == 0,
        k + 1 < frames.len() ==> spec_optimize(frames, Optimization::Backward)[k].len() == 0,
        0 < k && k + 1 < frames.len() ==> spec_optimize(frames, Optimization::Both)[k].len() == 0,
{
    assert(frames[k] == frames[0]);
    if k > 0 {
        assert(frames[k - 1] == frames[0]);
    }
    if k + 1 < frames.len() {
        assert(frames[k + 1] == frames[0]);
    }
    if k > 0 {
        lemma_nothing_kept(frames, k, Optimization::Forward, frames[k].len() as int);
    }
    if k + 1 < frames.len() {
        lemma_nothing_kept(frames, k, Optimization::Backward, frames[k].len() as int);
    }
    if 0 < k && k + 1 < frames.len() {
        lemma_nothing_kept(frames, k, Optimization::Both, frames[k].len() as int);
    }
}

} // verus!
