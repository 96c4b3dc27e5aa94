//! The last stage: the delays of the frames, the bytes of the file, and
//! the report of the progress.

use crate::diff::{PTS_PER_DELAY_UNIT};
use crate::encoder::{LzwFrame, RustEncoder, stream_bytes, TRAILER};
use crate::error::Error;
use crate::progress::ProgressReporter;
use crate::settings::Settings;
use vstd::prelude::*;

verus! {

/// No frame is shown shorter than this, in hundredths of a second: a
/// shorter delay is not kept by those who play the file.
pub const MIN_DELAY: u16 = 2;

/// No frame is shown longer than this.
pub const MAX_DELAY: u16 = 30000;

/// A time in hundredths of a second, rounded to the nearest, halves up.
/// Times before the start count as the start.
pub open spec fn delay_units(pts: i64) -> int {
    if pts <= 0 {
        0
    } else {
        (pts + PTS_PER_DELAY_UNIT / 2) / (PTS_PER_DELAY_UNIT as int)
    }
}

/// The delay of a frame that is shown until `end_pts`, where the frames
/// before it are shown for `shown` hundredths of a second: what is left of
/// the time, but no less than `MIN_DELAY` and no more than `MAX_DELAY`.
pub open spec fn delay_spec(end_pts: i64, shown: u64) -> int {
    let left = delay_units(end_pts) - shown;
    if left < MIN_DELAY {
        MIN_DELAY as int
    } else if left > MAX_DELAY {
        MAX_DELAY as int
    } else {
        left
    }
}

/// With its delay a frame ends no earlier than at its time, and exactly
/// at its time where the delay is neither raised to `MIN_DELAY` nor cut
/// at `MAX_DELAY`: what one frame is shown too long, the next is shown
/// shorter.
pub proof fn lemma_delay_keeps_time(end_pts: i64, shown: u64)
    ensures
        MIN_DELAY <= delay_spec(end_pts, shown) <= MAX_DELAY,
        delay_units(end_pts) - shown <= MAX_DELAY ==> shown + delay_spec(end_pts, shown)
            >= delay_units(end_pts),
        MIN_DELAY <= delay_units(end_pts) - shown <= MAX_DELAY ==> shown + delay_spec(
            end_pts,
            shown,
        ) == delay_units(end_pts),
{
}

/// For how long the frames are shown that end at the given times, one
/// after the other, once each has its delay: in hundredths of a second.
pub open spec fn shown_after(ends: Seq<i64>) -> int
    decreases ends.len(),
{
    if ends.len() == 0 {
        0
    } else {
        let before = shown_after(ends.drop_last());
        before + delay_spec(ends.last(), before as u64)
    }
}

/// The delay of the frame at place `k` among frames that end at the
/// given times.
pub open spec fn delay_at(ends: Seq<i64>, k: int) -> int {
    delay_spec(ends[k], shown_after(ends.subrange(0, k)) as u64)
}

/// The time at which the frame at place `k` begins to be shown, in
/// hundredths of a second.
pub open spec fn begins_at(ends: Seq<i64>, k: int) -> int {
    if k == 0 {
        0
    } else {
        delay_units(ends[k - 1])
    }
}

/// Every frame is shown for a time that a delay can hold.
pub open spec fn has_plain_delays(ends: Seq<i64>) -> bool {
    forall|k: int|
        0 <= k < ends.len() ==> MIN_DELAY <= delay_units(#[trigger] ends[k]) - begins_at(ends, k)
            <= MAX_DELAY
}

/// Where every frame is shown for a time that a delay can hold, every
/// frame's delay is the time from the end of the frame before it to its
/// own end, and the delays add up to the end of the last frame.
pub proof fn lemma_delays_add_up(ends: Seq<i64>)
    requires
        has_plain_delays(ends),
    ensures
        shown_after(ends) == (if ends.len() == 0 {
            0
        } else {
            delay_units(ends.last())
        }),
        forall|k: int|
            0 <= k < ends.len() ==> #[trigger] delay_at(ends, k) == delay_units(ends[k])
                - begins_at(ends, k),
    decreases ends.len(),
{
    if ends.len() > 0 {
        let before = ends.drop_last();
        assert forall|k: int| 0 <= k < before.len() implies MIN_DELAY <= delay_units(
            #[trigger] before[k],
        ) - begins_at(before, k) <= MAX_DELAY by {
            assert(before[k] == ends[k]);
            assert(begins_at(before, k) == begins_at(ends, k));
        }
        lemma_delays_add_up(before);
        let n = ends.len() - 1;
        assert(shown_after(before) == begins_at(ends, n));
        assert(MIN_DELAY <= delay_units(ends[n]) - begins_at(ends, n) <= MAX_DELAY);
        assert forall|k: int| 0 <= k < ends.len() implies #[trigger] delay_at(ends, k)
            == delay_units(ends[k]) - begins_at(ends, k) by {
            if k < n {
                assert(ends.subrange(0, k) =~= before.subrange(0, k));
                assert(delay_at(before, k) == delay_units(before[k]) - begins_at(before, k));
                assert(before[k] == ends[k]);
            } else {
                assert(ends.subrange(0, k) =~= before);
            }
        }
    }
}

/// The delay of a frame, in hundredths of a second.
pub fn frame_delay(end_pts: i64, shown: u64) -> (delay: u16)
    ensures
        delay == delay_spec(end_pts, shown),
        MIN_DELAY <= delay <= MAX_DELAY,
{
    let units: u64 = if end_pts <= 0 {
        0
    } else {
        (end_pts / PTS_PER_DELAY_UNIT) as u64 + if end_pts % PTS_PER_DELAY_UNIT
            >= PTS_PER_DELAY_UNIT / 2 {
            1
        } else {
            0
        }
    };
    let left: u64 = if units > shown {
        units - shown
    } else {
        0
    };
    if left < MIN_DELAY as u64 {
        MIN_DELAY
    } else if left > MAX_DELAY as u64 {
        MAX_DELAY
    } else {
        left as u16
    }
}

/// What becomes of the encoding after the reporter was told of a frame:
/// it goes on, or it is aborted where the reporter says so.
pub fn after_increase(goes_on: bool) -> (res: Result<(), Error>)
    ensures
        res is Ok <==> goes_on,
        res matches Err(e) ==> e is Aborted,
{
    if goes_on {
        Ok(())
    } else {
        Err(Error::Aborted)
    }
}

/// The stage that writes the file.
pub struct FrameWriter {
    /// For how long the frames written are shown, in hundredths of a second.
    pub pts_in_delay_units: u64,
    /// Of how many of the frames given the reporter has been told.
    pub n_done: usize,
    /// How many frames have been written.
    pub frames: u32,
    pub enc: RustEncoder,
    pub settings: Settings,
}

impl FrameWriter {
    pub open spec fn wf(&self) -> bool {
        &&& self.pts_in_delay_units <= MAX_DELAY * self.frames
        &&& (self.frames == 0 <==> self.enc.gif_enc is None)
        &&& (self.enc.gif_enc matches Some(stream) ==> stream_bytes(stream) == Seq::<u8>::empty())
    }

    /// The stage before the first frame.
    pub fn new(settings: Settings) -> (w: FrameWriter)
        ensures
            w.wf(),
            w.pts_in_delay_units == 0,
            w.n_done == 0,
            w.frames == 0,
            w.settings == settings,
    {
        FrameWriter {
            pts_in_delay_units: 0,
            n_done: 0,
            frames: 0,
            enc: RustEncoder::new(),
            settings,
        }
    }

    /// Writes a frame that is shown until `end_pts`, and gives the bytes
    /// that are to go into the file for it. The first frame brings the head
    /// of the file with the size of the screen. The delays of the frames
    /// add up to the time that the frames are shown for.
    pub fn write_frame(
        &mut self,
        frame: &LzwFrame,
        end_pts: i64,
        screen_width: u16,
        screen_height: u16,
    ) -> (res: Result<Vec<u8>, Error>)
        requires
            old(self).wf(),
            frame.wf(),
        ensures
            final(self).wf(),
            final(self).settings == old(self).settings,
            final(self).n_done == old(self).n_done,
            res is Err <==> old(self).frames == u32::MAX,
            res matches Err(e) ==> e is WrongSize && *final(self) == *old(self),
            res matches Ok(bytes) ==> {
                let delay = delay_spec(end_pts, old(self).pts_in_delay_units) as u16;
                &&& final(self).frames == old(self).frames + 1
                &&& final(self).pts_in_delay_units == old(self).pts_in_delay_units + delay
                &&& bytes@ == RustEncoder::written(
                    old(self).enc.gif_enc,
                    frame,
                    delay,
                    screen_width,
                    screen_height,
                    old(self).settings.repeat,
                )
            },
    {
        if self.frames == u32::MAX {
            return Err(Error::WrongSize("too many frames".to_string()));
        }
        let delay = frame_delay(end_pts, self.pts_in_delay_units);
        assert(MAX_DELAY * self.frames + MAX_DELAY <= 30000 * 0x1_0000_0000) by (nonlinear_arith)
            requires
                self.frames < 0xffff_ffff,
        ;
        let bytes = match self.enc.write_frame(
            frame,
            delay,
            screen_width,
            screen_height,
            &self.settings,
        ) {
            Ok(bytes) => bytes,
            Err(e) => {
                proof {
                    assert(false);
                }
                return Err(e);
            },
        };
        self.pts_in_delay_units += delay as u64;
        self.frames += 1;
        assert(MAX_DELAY * self.frames == MAX_DELAY * (self.frames - 1) + MAX_DELAY)
            by (nonlinear_arith);
        Ok(bytes)
    }

    /// Tells the reporter of the frames up to the frame with the given
    /// place among the frames given, of those that were left out too. It
    /// stops at the first frame at which the reporter asks for an abort.
    pub fn report<R: ProgressReporter>(&mut self, ordinal_frame_number: usize, reporter: &mut R) -> (res:
        Result<(), Error>)
        ensures
            final(self).pts_in_delay_units == old(self).pts_in_delay_units,
            final(self).frames == old(self).frames,
            final(self).enc == old(self).enc,
            final(self).settings == old(self).settings,
            old(self).n_done >= ordinal_frame_number ==> res is Ok && final(self).n_done == old(
                self,
            ).n_done,
            old(self).n_done < ordinal_frame_number ==> {
                &&& old(self).n_done < final(self).n_done <= ordinal_frame_number
                &&& (res is Ok ==> final(self).n_done == ordinal_frame_number)
            },
            res matches Err(e) ==> e is Aborted,
    {
        while self.n_done < ordinal_frame_number
            invariant
                self.pts_in_delay_units == old(self).pts_in_delay_units,
                self.frames == old(self).frames,
                self.enc == old(self).enc,
                self.settings == old(self).settings,
                old(self).n_done <= self.n_done,
                old(self).n_done < ordinal_frame_number ==> self.n_done <= ordinal_frame_number,
                old(self).n_done >= ordinal_frame_number ==> self.n_done == old(self).n_done,
            decreases ordinal_frame_number - self.n_done,
        {
            self.n_done += 1;
            let goes_on = reporter.increase();
            after_increase(goes_on)?;
        }
        Ok(())
    }

    /// Ends the file, and gives the byte that is to go into it last. An
    /// encoding in which the reporter was told of no frame has failed.
    pub fn finish(self) -> (res: Result<Vec<u8>, Error>)
        requires
            self.wf(),
        ensures
            res is Ok <==> self.n_done > 0,
            res matches Err(e) ==> e is NoFrames,
            res matches Ok(bytes) ==> bytes@ == (if self.frames > 0 {
                seq![TRAILER]
            } else {
                Seq::<u8>::empty()
            }),
    {
        if self.n_done == 0 {
            return Err(Error::NoFrames);
        }
        match self.enc.finish() {
            Ok(bytes) => {
                assert(self.frames > 0 ==> bytes@ =~= seq![TRAILER]);
                Ok(bytes)
            },
            Err(e) => {
                proof {
                    assert(false);
                }
                Err(e)
            },
        }
    }
}

} // verus!
