//! What the denoiser makes of a picture that does not change: every pixel
//! is drawn in the colour that it is shown, whatever the importance.

use crate::color::{RGB8, RGBA8};
use crate::denoise::{
    acc_clear_spec, appended_all, appended_blank, avg8_spec, count_at_most, count_below,
    decided_all, decided_colors, is_kth_smallest, is_median, lemma_append_shifts,
    lemma_median_unique, median_spec, transparent_pixel, Acc, DenoiserView, LOOKAHEAD,
};
use crate::diff::{all_repeat, is_diff_message, DiffMakerView, DiffMessage};
use crate::prepare::InputFrameResized;
use vstd::prelude::*;

verus! {

/// No threshold of the denoiser is above this.
pub const MAX_THRESHOLD: u32 = 3025;

/// The colour that an opaque pixel is drawn in.
pub open spec fn drawn(c: RGBA8) -> RGBA8 {
    RGBA8 { r: c.r, g: c.g, b: c.b, a: 255 }
}

/// What a pixel of the picture is drawn as: its colour where it is rather
/// opaque than transparent, else transparency.
pub open spec fn drawn_pixel(c: RGBA8) -> RGBA8 {
    if c.a >= 128 {
        drawn(c)
    } else {
        transparent_pixel()
    }
}

/// The pixel has been shown nothing but the colour `c` with the blurred
/// companion `cb`: every sample of its window is that colour, and so is
/// its background if it has one.
pub open spec fn is_steady(a: Acc, c: RGBA8, cb: RGB8) -> bool {
    &&& a.wf()
    &&& forall|idx: int|
        0 <= idx < 5 && (#[trigger] a.sample(idx)) is Some ==> c.a >= 128 && a.sample(idx) == Some(
            (c.rgb_spec(), cb),
        )
    &&& (a.bg_set.a > 0 ==> a.bg_set == drawn(c))
    &&& (a.stayed_for < a.can_stay_for ==> a.bg_set.a > 0)
}

/// The median of samples that are all the same is that sample.
pub proof fn lemma_median_of_equals(s: Seq<u8>, len: int, v: u8)
    requires
        1 <= len <= 5,
        s.len() == 5,
        forall|i: int| 0 <= i < len ==> s[i] == v,
    ensures
        median_spec(s, len) == v,
{
    assert(count_below(s, len, v) == 0);
    assert(count_at_most(s, len, v) == len);
    if len % 2 == 1 {
        assert(is_kth_smallest(s, len, len / 2, v));
    } else {
        assert(is_kth_smallest(s, len, len / 2 - 1, v));
        assert(is_kth_smallest(s, len, len / 2, v));
        assert(v == avg8_spec(v, v));
    }
    assert(is_median(s, len, v));
    lemma_median_unique(s, len, v);
}

/// A pixel that is shown one colour only stays so when it is shown that
/// colour again, and when it is shown nothing.
pub proof fn lemma_steady_append(a: Acc, c: RGBA8, cb: RGB8)
    requires
        is_steady(a, c, cb),
    ensures
        is_steady(a.appended(c, cb), c, cb),
        is_steady(a.appended(transparent_pixel(), RGB8 { r: 0, g: 0, b: 0 }), c, cb),
{
    let black = RGB8 { r: 0, g: 0, b: 0 };
    let more = a.appended(c, cb);
    let blank = a.appended(transparent_pixel(), black);
    assert forall|idx: int| 0 <= idx < 5 && (#[trigger] more.sample(idx)) is Some implies c.a
        >= 128 && more.sample(idx) == Some((c.rgb_spec(), cb)) by {
        lemma_append_shifts(a, c, cb, idx);
        if idx < 4 {
            assert(a.sample(idx + 1) is Some);
        }
    }
    assert forall|idx: int| 0 <= idx < 5 && (#[trigger] blank.sample(idx)) is Some implies c.a
        >= 128 && blank.sample(idx) == Some((c.rgb_spec(), cb)) by {
        lemma_append_shifts(a, transparent_pixel(), black, idx);
        if idx < 4 {
            assert(a.sample(idx + 1) is Some);
        }
    }
    lemma_append_shifts(a, c, cb, 0);
    lemma_append_shifts(a, transparent_pixel(), black, 0);
}

/// A pixel that is shown one colour only is drawn in that colour, where
/// its oldest sample is a colour at all, and as transparency where it is
/// not. It is left as a pixel that has been shown that colour only.
pub proof fn lemma_steady_pixel(a: Acc, c: RGBA8, cb: RGB8, threshold: u32, odd: bool)
    requires
        is_steady(a, c, cb),
        0 < threshold <= MAX_THRESHOLD,
    ensures
        is_steady(a.next_pixel_spec(threshold, odd).0, c, cb),
        a.next_pixel_spec(threshold, odd).1.color == (if a.sample(0) is Some {
            drawn(c)
        } else {
            transparent_pixel()
        }),
        forall|idx: int|
            0 <= idx < 5 ==> #[trigger] a.next_pixel_spec(threshold, odd).0.sample(idx)
                == a.sample(idx),
{
    let (after, choice) = a.next_pixel_spec(threshold, odd);
    assert forall|idx: int| 0 <= idx < 5 implies #[trigger] after.sample(idx) == a.sample(idx) by {}
    match a.sample(0) {
        None => {
            assert forall|idx: int| 0 <= idx < 5 && (#[trigger] after.sample(idx)) is Some implies c.a
                >= 128 && after.sample(idx) == Some((c.rgb_spec(), cb)) by {
                assert(after.sample(idx) == a.sample(idx));
            }
        },
        Some((curr, curr_blur)) => {
            assert(curr == c.rgb_spec() && curr_blur == cb);
            assert forall|idx: int| 0 <= idx < 5 implies #[trigger] after.sample(idx) == a.sample(
                idx,
            ) by {}
            let t: int = if crate::denoise::cohort_spec(curr) != odd {
                threshold as int
            } else {
                threshold * 2
            };
            let diff = a.diff_with_bg(curr, curr_blur);
            if a.stayed_for < a.can_stay_for {
            } else if diff < t {
                assert(a.bg_set.a > 0);
            } else {
                let stays = a.stays_frames(curr, curr_blur, t);
                if stays > 0 {
                    assert forall|i: int| 0 <= i < stays + 1 implies a.r@[i] == c.r && a.g@[i]
                        == c.g && a.b@[i] == c.b by {
                        if i > 0 {
                            assert(a.near(i, curr, curr_blur, t));
                        }
                        assert(a.sample(i) is Some);
                    }
                    lemma_median_of_equals(a.r@, stays + 1, c.r);
                    lemma_median_of_equals(a.g@, stays + 1, c.g);
                    lemma_median_of_equals(a.b@, stays + 1, c.b);
                }
            }
        },
    }
}

/// The picture as the denoiser draws it.
pub open spec fn picture(frame: Seq<RGBA8>) -> Seq<RGBA8> {
    Seq::new(frame.len(), |i: int| drawn_pixel(frame[i]))
}

/// How many denoised frames have been made after so many steps.
pub open spec fn made_after(steps: int) -> int {
    if steps >= 5 {
        steps - 4
    } else {
        0
    }
}

/// Whether place `idx` of the windows holds a frame, once `pushed` frames
/// have gone in and the windows were pushed on `steps` times in all.
pub open spec fn holds_frame(steps: int, pushed: int, idx: int) -> bool {
    0 <= steps - 5 + idx < pushed
}

/// The denoiser has been shown one picture only: `pushed` times the
/// frame with its companion, then `flushed` times nothing, and `taken` of
/// the denoised frames have been taken from it. Every denoised frame that
/// it holds is the picture.
pub open spec fn shows_one<T>(
    d: DenoiserView<T>,
    frame: Seq<RGBA8>,
    blurred: Seq<RGB8>,
    pushed: int,
    flushed: int,
    taken: int,
) -> bool {
    let steps = pushed + flushed;
    &&& d.wf()
    &&& d.threshold <= MAX_THRESHOLD
    &&& frame.len() == d.accs.len()
    &&& blurred.len() == d.accs.len()
    &&& 0 <= pushed
    &&& 0 <= flushed
    &&& 0 <= taken <= made_after(steps) <= pushed
    &&& d.filled == (if steps < 5 {
        steps
    } else {
        5
    })
    &&& d.metadatas.len() == pushed - taken
    &&& d.processed.len() == made_after(steps) - taken
    &&& forall|i: int| 0 <= i < d.accs.len() ==> is_steady(#[trigger] d.accs[i], frame[i], blurred[i])
    &&& forall|i: int, idx: int|
        0 <= i < d.accs.len() && 0 <= idx < 5 ==> ((#[trigger] d.accs[i].sample(idx)) is Some
            <==> frame[i].a >= 128 && holds_frame(steps, pushed, idx))
    &&& forall|k: int| 0 <= k < d.processed.len() ==> (#[trigger] d.processed[k]).0 == picture(frame)
}

proof fn lemma_clear_has_no_sample(a: Acc, idx: int)
    requires
        acc_clear_spec(a),
        0 <= idx < 5,
    ensures
        a.sample(idx) is None,
        a.wf(),
{
    let i = idx as u8;
    assert(31u8 & (1u8 << i) != 0) by (bit_vector)
        requires
            i < 5,
    ;
}

/// A denoiser that has seen nothing has been shown one picture only.
pub proof fn lemma_new_shows_one<T>(d: DenoiserView<T>, frame: Seq<RGBA8>, blurred: Seq<RGB8>)
    requires
        d.wf(),
        d.threshold <= MAX_THRESHOLD,
        d.filled == 0,
        d.processed.len() == 0,
        d.metadatas.len() == 0,
        forall|i: int| 0 <= i < d.accs.len() ==> acc_clear_spec(#[trigger] d.accs[i]),
        frame.len() == d.accs.len(),
        blurred.len() == d.accs.len(),
    ensures
        shows_one(d, frame, blurred, 0, 0, 0),
{
    assert forall|i: int| 0 <= i < d.accs.len() implies is_steady(
        #[trigger] d.accs[i],
        frame[i],
        blurred[i],
    ) by {
        assert forall|idx: int| 0 <= idx < 5 implies (#[trigger] d.accs[i].sample(idx)) is None by {
            lemma_clear_has_no_sample(d.accs[i], idx);
        }
        lemma_clear_has_no_sample(d.accs[i], 0);
    }
    assert forall|i: int, idx: int| 0 <= i < d.accs.len() && 0 <= idx < 5 implies ((
    #[trigger] d.accs[i].sample(idx)) is Some <==> frame[i].a >= 128 && holds_frame(0, 0, idx)) by {
        lemma_clear_has_no_sample(d.accs[i], idx);
    }
}

/// What the windows are after one more step, and what is drawn then.
proof fn lemma_step_draws(
    before: Seq<Acc>,
    moved: Seq<Acc>,
    frame: Seq<RGBA8>,
    blurred: Seq<RGB8>,
    threshold: u32,
    odd: bool,
    steps: int,
    pushed: int,
    pushed_now: bool,
)
    requires
        0 < threshold <= MAX_THRESHOLD,
        frame.len() == before.len(),
        blurred.len() == before.len(),
        moved == (if pushed_now {
            appended_all(before, frame, blurred)
        } else {
            appended_blank(before)
        }),
        pushed_now ==> steps == pushed - 1 && pushed >= 1,
        !pushed_now ==> steps >= pushed,
        0 <= pushed,
        forall|i: int| 0 <= i < before.len() ==> is_steady(#[trigger] before[i], frame[i], blurred[i]),
        forall|i: int, idx: int|
            0 <= i < before.len() && 0 <= idx < 5 ==> ((#[trigger] before[i].sample(idx)) is Some
                <==> frame[i].a >= 128 && holds_frame(
                steps,
                if pushed_now {
                    pushed - 1
                } else {
                    pushed
                },
                idx,
            )),
    ensures
        forall|i: int| 0 <= i < moved.len() ==> is_steady(#[trigger] moved[i], frame[i], blurred[i]),
        forall|i: int, idx: int|
            0 <= i < moved.len() && 0 <= idx < 5 ==> ((#[trigger] moved[i].sample(idx)) is Some
                <==> frame[i].a >= 128 && holds_frame(steps + 1, pushed, idx)),
        forall|i: int|
            0 <= i < moved.len() ==> is_steady(
                #[trigger] decided_all(moved, threshold, odd)[i],
                frame[i],
                blurred[i],
            ),
        forall|i: int, idx: int|
            0 <= i < moved.len() && 0 <= idx < 5 ==> ((#[trigger] decided_all(
                moved,
                threshold,
                odd,
            )[i].sample(idx)) is Some <==> frame[i].a >= 128 && holds_frame(steps + 1, pushed, idx)),
        holds_frame(steps + 1, pushed, 0) ==> decided_colors(moved, threshold, odd) == picture(
            frame,
        ),
{
    let black = RGB8 { r: 0, g: 0, b: 0 };
    assert(moved.len() == before.len());
    assert forall|i: int| 0 <= i < moved.len() implies is_steady(
        #[trigger] moved[i],
        frame[i],
        blurred[i],
    ) by {
        lemma_steady_append(before[i], frame[i], blurred[i]);
    }
    assert forall|i: int, idx: int| 0 <= i < moved.len() && 0 <= idx < 5 implies ((
    #[trigger] moved[i].sample(idx)) is Some <==> frame[i].a >= 128 && holds_frame(
        steps + 1,
        pushed,
        idx,
    )) by {
        assert(is_steady(before[i], frame[i], blurred[i]));
        if pushed_now {
            assert(moved[i] == before[i].appended(frame[i], blurred[i]));
            lemma_append_shifts(before[i], frame[i], blurred[i], idx);
        } else {
            assert(moved[i] == before[i].appended(transparent_pixel(), black));
            lemma_append_shifts(before[i], transparent_pixel(), black, idx);
        }
        if idx < 4 {
            assert(before[i].sample(idx + 1) is Some <==> frame[i].a >= 128 && holds_frame(
                steps,
                if pushed_now {
                    pushed - 1
                } else {
                    pushed
                },
                idx + 1,
            ));
        }
    }
    let decided = decided_all(moved, threshold, odd);
    assert forall|i: int| 0 <= i < moved.len() implies is_steady(
        #[trigger] decided[i],
        frame[i],
        blurred[i],
    ) by {
        lemma_steady_pixel(moved[i], frame[i], blurred[i], threshold, odd);
    }
    assert forall|i: int, idx: int| 0 <= i < moved.len() && 0 <= idx < 5 implies ((
    #[trigger] decided[i].sample(idx)) is Some <==> frame[i].a >= 128 && holds_frame(
        steps + 1,
        pushed,
        idx,
    )) by {
        lemma_steady_pixel(moved[i], frame[i], blurred[i], threshold, odd);
        assert(decided[i].sample(idx) == moved[i].sample(idx));
        assert(moved[i].sample(idx) is Some <==> frame[i].a >= 128 && holds_frame(
            steps + 1,
            pushed,
            idx,
        ));
    }
    if holds_frame(steps + 1, pushed, 0) {
        let colors = decided_colors(moved, threshold, odd);
        assert forall|i: int| 0 <= i < colors.len() implies colors[i] == picture(frame)[i] by {
            lemma_steady_pixel(moved[i], frame[i], blurred[i], threshold, odd);
            assert(moved[i].sample(0) is Some <==> frame[i].a >= 128 && holds_frame(
                steps + 1,
                pushed,
                0,
            ));
        }
        assert(colors =~= picture(frame));
    }
}

/// A denoiser that has been shown one picture only is so still once it is
/// shown the picture again; what comes out is that picture.
pub proof fn lemma_push_shows_one<T>(
    d: DenoiserView<T>,
    frame: Seq<RGBA8>,
    blurred: Seq<RGB8>,
    meta: T,
    pushed: int,
    taken: int,
)
    requires
        shows_one(d, frame, blurred, pushed, 0, taken),
    ensures
        shows_one(d.push_frame(frame, blurred, meta), frame, blurred, pushed + 1, 0, taken),
{
    let after = d.push_frame(frame, blurred, meta);
    let moved = appended_all(d.accs, frame, blurred);
    lemma_step_draws(d.accs, moved, frame, blurred, d.threshold, !d.odd, pushed, pushed + 1, true);
    if d.filled + 1 < LOOKAHEAD {
        assert(after.accs == moved);
    } else {
        assert(holds_frame(pushed + 1, pushed + 1, 0));
        assert forall|k: int| 0 <= k < after.processed.len() implies (
        #[trigger] after.processed[k]).0 == picture(frame) by {
            if k > 0 {
                assert(after.processed[k] == d.processed[k - 1]);
            }
        }
        assert forall|k: int| 0 <= k < after.processed.len() implies (
        #[trigger] after.processed[k]).0.len() == after.accs.len() && after.processed[k].1.len()
            == after.accs.len() by {
            if k > 0 {
                assert(after.processed[k] == d.processed[k - 1]);
            }
        }
    }
    assert forall|i: int| 0 <= i < after.accs.len() implies (#[trigger] after.accs[i]).wf() by {
        assert(is_steady(after.accs[i], frame[i], blurred[i]));
    }
}

/// A denoiser that has been shown one picture only is so still once its
/// windows are pushed on by a step of flushing; what comes out is that
/// picture.
pub proof fn lemma_flush_step_shows_one<T>(
    d: DenoiserView<T>,
    frame: Seq<RGBA8>,
    blurred: Seq<RGB8>,
    pushed: int,
    flushed: int,
    taken: int,
)
    requires
        shows_one(d, frame, blurred, pushed, flushed, taken),
        d.processed.len() < d.metadatas.len(),
    ensures
        shows_one(d.flush_step(), frame, blurred, pushed, flushed + 1, taken),
{
    let after = d.flush_step();
    let moved = appended_blank(d.accs);
    lemma_step_draws(
        d.accs,
        moved,
        frame,
        blurred,
        d.threshold,
        d.odd,
        pushed + flushed,
        pushed,
        false,
    );
    if d.filled + 1 < LOOKAHEAD {
    } else {
        assert(holds_frame(pushed + flushed + 1, pushed, 0));
        assert forall|k: int| 0 <= k < after.processed.len() implies (
        #[trigger] after.processed[k]).0 == picture(frame) by {
            if k > 0 {
                assert(after.processed[k] == d.processed[k - 1]);
            }
        }
        assert forall|k: int| 0 <= k < after.processed.len() implies (
        #[trigger] after.processed[k]).0.len() == after.accs.len() && after.processed[k].1.len()
            == after.accs.len() by {
            if k > 0 {
                assert(after.processed[k] == d.processed[k - 1]);
            }
        }
    }
    assert forall|i: int| 0 <= i < after.accs.len() implies (#[trigger] after.accs[i]).wf() by {
        assert(is_steady(after.accs[i], frame[i], blurred[i]));
    }
}

/// A denoiser that has been shown one picture only is so still once a
/// denoised frame is taken from it.
pub proof fn lemma_pop_shows_one<T>(
    d: DenoiserView<T>,
    frame: Seq<RGBA8>,
    blurred: Seq<RGB8>,
    pushed: int,
    flushed: int,
    taken: int,
)
    requires
        shows_one(d, frame, blurred, pushed, flushed, taken),
        d.processed.len() > 0,
    ensures
        shows_one(d.popped(), frame, blurred, pushed, flushed, taken + 1),
        d.processed.last().0 == picture(frame),
{
    let after = d.popped();
    assert forall|k: int| 0 <= k < after.processed.len() implies (#[trigger] after.processed[k]).0
        == picture(frame) && after.processed[k].0.len() == after.accs.len()
        && after.processed[k].1.len() == after.accs.len() by {
        assert(after.processed[k] == d.processed[k]);
    }
}

/// A denoiser that has been shown one picture only is so still once it
/// is flushed, and then holds a denoised frame for every frame that went
/// in and was not taken: each of them is that picture.
pub proof fn lemma_flush_shows_one<T>(
    d: DenoiserView<T>,
    frame: Seq<RGBA8>,
    blurred: Seq<RGB8>,
    pushed: int,
    flushed: int,
    taken: int,
) -> (more: int)
    requires
        shows_one(d, frame, blurred, pushed, flushed, taken),
    ensures
        shows_one(d.flush(), frame, blurred, pushed, more, taken),
        d.flush().processed.len() == d.flush().metadatas.len(),
        d.flush().metadatas == d.metadatas,
    decreases d.flush_steps_left(),
{
    if d.processed.len() < d.metadatas.len() {
        lemma_flush_step_shows_one(d, frame, blurred, pushed, flushed, taken);
        lemma_flush_shows_one(d.flush_step(), frame, blurred, pushed, flushed + 1, taken)
    } else {
        flushed
    }
}

/// The stage that feeds the denoiser keeps to one picture while it is
/// fed that picture: whether a frame goes into the denoiser or is dropped
/// for its time, the denoiser has been shown that picture only.
pub proof fn lemma_fed_shows_one(
    v: DiffMakerView,
    f: &InputFrameResized,
    pushed: int,
    taken: int,
)
    requires
        shows_one(v.denoiser, f.frame.buf@, f.frame_blurred.buf@, pushed, 0, taken),
    ensures
        shows_one(v.fed(f).denoiser, f.frame.buf@, f.frame_blurred.buf@, pushed + 1, 0, taken),
        shows_one(v.skipped().denoiser, f.frame.buf@, f.frame_blurred.buf@, pushed, 0, taken),
{
    lemma_push_shows_one(
        v.denoiser,
        f.frame.buf@,
        f.frame_blurred.buf@,
        v.meta_for(f.presentation_timestamp),
        pushed,
        taken,
    );
}

/// The stage keeps to one picture when it is told that no frame is left.
pub proof fn lemma_flushed_shows_one(
    v: DiffMakerView,
    frame: Seq<RGBA8>,
    blurred: Seq<RGB8>,
    pushed: int,
    flushed: int,
    taken: int,
) -> (more: int)
    requires
        shows_one(v.denoiser, frame, blurred, pushed, flushed, taken),
    ensures
        shows_one(v.flushed().denoiser, frame, blurred, pushed, more, taken),
{
    lemma_flush_shows_one(v.denoiser, frame, blurred, pushed, flushed, taken)
}

/// The stage keeps to one picture when a denoised frame is taken from
/// it, and the frame that is taken is sent on as that picture.
pub proof fn lemma_taken_shows_one(
    v: DiffMakerView,
    m: &DiffMessage,
    frame: Seq<RGBA8>,
    blurred: Seq<RGB8>,
    pushed: int,
    flushed: int,
    taken: int,
)
    requires
        shows_one(v.denoiser, frame, blurred, pushed, flushed, taken),
        v.denoiser.processed.len() > 0,
        is_diff_message(v.denoiser, m),
    ensures
        shows_one(v.taken().denoiser, frame, blurred, pushed, flushed, taken + 1),
        m.image.buf@ == picture(frame),
        m.image.width == v.denoiser.width,
        m.image.height == v.denoiser.height,
{
    lemma_pop_shows_one(v.denoiser, frame, blurred, pushed, flushed, taken);
}

/// Messages that all show one picture of one size repeat the first of
/// them, so that one frame is sent on for all of them.
pub proof fn lemma_one_picture_repeats(
    messages: Seq<DiffMessage>,
    shown: Seq<RGBA8>,
    width: usize,
    height: usize,
)
    requires
        forall|i: int|
            0 <= i < messages.len() ==> (#[trigger] messages[i]).image.buf@ == shown
                && messages[i].image.width == width && messages[i].image.height == height,
    ensures
        all_repeat(messages),
{
}

} // verus!
