//! The comparison of neighbouring frames: which frames are written at all,
//! how each is disposed of, and until when it is shown.

use crate::color::RGBA8;
use crate::denoise::{Denoised, Denoiser, DenoiserView};
use crate::error::Error;
use crate::img::ImgVec;
use crate::prepare::InputFrameResized;
use crate::screen::DisposalMethod;
use vstd::prelude::*;

verus! {

/// Times are counted in millionths of a second.
pub const PTS_PER_SECOND: i64 = 1000000;

/// A hundredth of a second, the unit of the delays of a GIF.
pub const PTS_PER_DELAY_UNIT: i64 = 10000;

/// No time is later than this.
pub const MAX_PTS: i64 = 0x20_0000_0000_0000;

/// How long the last frame is shown.
#[derive(Clone, Copy, Debug, PartialEq, Eq, Structural)]
pub enum LastFrameDuration {
    /// As long as the first frame came after the start. Every frame is
    /// moved forward by as much.
    FixedOffset(i64),
    /// As long as the frame before it.
    FrameRate(i64),
}

impl LastFrameDuration {
    pub open spec fn value_spec(self) -> i64 {
        match self {
            LastFrameDuration::FixedOffset(val) => val,
            LastFrameDuration::FrameRate(val) => val,
        }
    }

    pub open spec fn shift_spec(self) -> i64 {
        match self {
            LastFrameDuration::FixedOffset(offset) => offset,
            LastFrameDuration::FrameRate(_) => 0,
        }
    }

    pub fn value(&self) -> (v: i64)
        ensures
            v == self.value_spec(),
    {
        match self {
            LastFrameDuration::FixedOffset(val) => *val,
            LastFrameDuration::FrameRate(val) => *val,
        }
    }

    pub fn shift_every_pts_by(&self) -> (v: i64)
        ensures
            v == self.shift_spec(),
    {
        match self {
            LastFrameDuration::FixedOffset(offset) => *offset,
            LastFrameDuration::FrameRate(_) => 0,
        }
    }
}

/// What goes through the denoiser with a frame.
#[derive(Clone, Copy)]
pub struct FrameMeta {
    /// The place of the frame among the frames given, from 1.
    pub ordinal_frame_number: usize,
    pub pts: i64,
    pub last_frame_duration: LastFrameDuration,
}

/// A denoised frame before it is compared with the next one.
pub struct DiffMessage {
    /// From 1.
    pub ordinal_frame_number: usize,
    pub pts: i64,
    pub frame_duration: i64,
    pub image: ImgVec<RGBA8>,
    pub importance_map: Vec<u8>,
}

pub open spec fn pts_in_range(pts: i64) -> bool {
    0 <= pts <= MAX_PTS
}

impl DiffMessage {
    pub open spec fn wf(&self) -> bool {
        &&& self.image.wf()
        &&& self.importance_map.len() == self.image.buf.len()
        &&& -2 * MAX_PTS <= self.pts <= 2 * MAX_PTS
        &&& 0 <= self.frame_duration <= 4 * MAX_PTS
    }
}

/// The rule for the time of the first frame: a first frame that comes
/// later than a hundredth of a second after the start moves every frame
/// forward by its time, and the last frame is shown for as long. Otherwise
/// the last frame is shown as long as the frame before it.
pub open spec fn first_frame_rule(first_pts: i64) -> LastFrameDuration {
    if first_pts > PTS_PER_DELAY_UNIT {
        LastFrameDuration::FixedOffset(first_pts)
    } else {
        LastFrameDuration::FrameRate(0)
    }
}

/// The state of the stage that feeds the denoiser, as a mathematical value.
pub struct DiffMakerView {
    pub denoiser: DenoiserView<FrameMeta>,
    pub last_frame_duration: LastFrameDuration,
    pub ordinal_frame_number: usize,
    pub last_frame_pts: i64,
}

impl DiffMakerView {
    /// The time of a frame once the first frame's rule is applied.
    pub open spec fn shifted(self, raw_pts: i64) -> i64 {
        (raw_pts - self.last_frame_duration.shift_spec()) as i64
    }

    /// The duration that is noted with a frame.
    pub open spec fn duration_with(self, raw_pts: i64) -> LastFrameDuration {
        match self.last_frame_duration {
            LastFrameDuration::FixedOffset(offset) => LastFrameDuration::FixedOffset(offset),
            LastFrameDuration::FrameRate(_) => LastFrameDuration::FrameRate(
                (self.shifted(raw_pts) - self.last_frame_pts) as i64,
            ),
        }
    }

    /// What goes into the denoiser with a frame.
    pub open spec fn meta_for(self, raw_pts: i64) -> FrameMeta {
        FrameMeta {
            ordinal_frame_number: (self.ordinal_frame_number + 1) as usize,
            pts: self.shifted(raw_pts),
            last_frame_duration: self.duration_with(raw_pts),
        }
    }

    /// Whether a frame comes at the time of the frame before it. Such a
    /// frame would take the place of the other at once, so that one of
    /// the two would be shown for no time.
    pub open spec fn repeats_time(self, raw_pts: i64) -> bool {
        self.ordinal_frame_number > 0 && self.shifted(raw_pts) == self.last_frame_pts
    }

    /// The stage after a frame is dropped: it is counted and nothing else.
    pub open spec fn skipped(self) -> DiffMakerView {
        DiffMakerView { ordinal_frame_number: (self.ordinal_frame_number + 1) as usize, ..self }
    }

    /// The stage after a frame is fed to the denoiser.
    pub open spec fn fed(self, frame: &InputFrameResized) -> DiffMakerView {
        DiffMakerView {
            denoiser: self.denoiser.push_frame(
                frame.frame.buf@,
                frame.frame_blurred.buf@,
                self.meta_for(frame.presentation_timestamp),
            ),
            last_frame_duration: self.duration_with(frame.presentation_timestamp),
            ordinal_frame_number: (self.ordinal_frame_number + 1) as usize,
            last_frame_pts: self.shifted(frame.presentation_timestamp),
        }
    }

    /// The stage after it is told that no frame is left.
    pub open spec fn flushed(self) -> DiffMakerView {
        DiffMakerView { denoiser: self.denoiser.flush(), ..self }
    }

    /// The stage after the oldest denoised frame is taken, if there is one.
    pub open spec fn taken(self) -> DiffMakerView {
        if self.denoiser.processed.len() > 0 {
            DiffMakerView { denoiser: self.denoiser.popped(), ..self }
        } else {
            self
        }
    }
}

/// The message that a denoised frame is sent on as. No frame is shown
/// shorter than a hundredth of a second.
pub open spec fn is_diff_message(d: DenoiserView<FrameMeta>, m: &DiffMessage) -> bool {
    let meta = d.metadatas.last();
    &&& m.wf()
    &&& m.image.width == d.width
    &&& m.image.height == d.height
    &&& m.image.buf@ == d.processed.last().0
    &&& m.importance_map@ == d.processed.last().1
    &&& m.ordinal_frame_number == meta.ordinal_frame_number
    &&& m.pts == meta.pts
    &&& m.frame_duration == (if meta.last_frame_duration.value_spec() > PTS_PER_DELAY_UNIT {
        meta.last_frame_duration.value_spec()
    } else {
        PTS_PER_DELAY_UNIT
    })
}

/// Calls `format!` for the words that tell of a frame of another size
/// than the first: the frame's number among the frames given, from 1,
/// and its width and height. Nothing is claimed of the words.
#[verifier::external_body]
fn wrong_size_message(ordinal: usize, width: usize, height: usize) -> String {
    format!("Frame {ordinal} has wrong size ({width}\u{d7}{height})")
}

/// What a step of the stage gives.
pub enum DiffStep {
    /// Every frame has been sent on.
    Done,
    /// More frames have to be fed first.
    NotYet,
    Frame(DiffMessage),
}

/// The stage that feeds the frames to the denoiser and sends the denoised
/// frames on.
pub struct DiffMaker {
    pub denoiser: Denoiser<FrameMeta>,
    pub last_frame_duration: LastFrameDuration,
    pub ordinal_frame_number: usize,
    pub last_frame_pts: i64,
}

impl View for DiffMaker {
    type V = DiffMakerView;

    open spec fn view(&self) -> DiffMakerView {
        DiffMakerView {
            denoiser: self.denoiser@,
            last_frame_duration: self.last_frame_duration,
            ordinal_frame_number: self.ordinal_frame_number,
            last_frame_pts: self.last_frame_pts,
        }
    }
}

impl DiffMaker {
    /// The times that have gone into the stage are in range.
    pub open spec fn wf(&self) -> bool {
        &&& self.denoiser.wf()
        &&& -MAX_PTS <= self.last_frame_pts <= MAX_PTS
        &&& match self.last_frame_duration {
            LastFrameDuration::FixedOffset(offset) => 0 <= offset <= MAX_PTS,
            LastFrameDuration::FrameRate(rate) => -2 * MAX_PTS <= rate <= 2 * MAX_PTS,
        }
        &&& forall|i: int|
            0 <= i < self.denoiser@.metadatas.len() ==> meta_in_range(
                #[trigger] self.denoiser@.metadatas[i],
            )
    }

    /// The stage before the first frame is fed. The quality of the motion
    /// has to be from 1 to 100.
    pub fn new(first_frame: &InputFrameResized, motion_quality: u8) -> (res: Result<DiffMaker, Error>)
        requires
            first_frame.frame.wf(),
            pts_in_range(first_frame.presentation_timestamp),
        ensures
            res is Ok <==> 1 <= motion_quality <= 100,
            res matches Err(e) ==> e is WrongSize,
            res matches Ok(m) ==> {
                &&& m.wf()
                &&& m@.last_frame_duration == first_frame_rule(first_frame.presentation_timestamp)
                &&& m@.ordinal_frame_number == 0
                &&& m@.last_frame_pts == 0
                &&& m@.denoiser.width == first_frame.frame.width
                &&& m@.denoiser.height == first_frame.frame.height
                &&& m@.denoiser.threshold == crate::denoise::threshold_for(motion_quality)
                &&& m@.denoiser.filled == 0
                &&& !m@.denoiser.odd
                &&& m@.denoiser.processed.len() == 0
                &&& m@.denoiser.metadatas.len() == 0
            },
    {
        if motion_quality < 1 || motion_quality > 100 {
            return Err(Error::WrongSize("motion quality must be 1-100".to_string()));
        }
        let last_frame_duration = if first_frame.presentation_timestamp > PTS_PER_DELAY_UNIT {
            LastFrameDuration::FixedOffset(first_frame.presentation_timestamp)
        } else {
            LastFrameDuration::FrameRate(0)
        };
        let denoiser = match Denoiser::new(
            first_frame.frame.width,
            first_frame.frame.height,
            motion_quality,
        ) {
            Ok(d) => d,
            Err(_) => {
                return Err(Error::WrongSize("wrong size".to_string()));
            },
        };
        Ok(
            DiffMaker {
                denoiser,
                last_frame_duration,
                ordinal_frame_number: 0,
                last_frame_pts: 0,
            },
        )
    }

    /// One step of the stage: the next frame is fed to the denoiser, or the
    /// denoiser is told that none is left, and the oldest denoised frame is
    /// taken from it if it has one. A frame of another size than the first
    /// stops the stage. A frame that comes at the time of the frame before
    /// it is dropped: it is counted, and the denoiser never sees it.
    pub fn step(&mut self, next_frame: Option<InputFrameResized>) -> (res: Result<DiffStep, Error>)
        requires
            old(self).wf(),
            old(self).ordinal_frame_number < usize::MAX,
            next_frame matches Some(f) ==> f.frame.wf() && f.frame_blurred.wf()
                && f.frame_blurred.same_size(&f.frame) && pts_in_range(f.presentation_timestamp),
        ensures
            final(self).wf(),
            res is Err <==> (next_frame matches Some(f) && (f.frame.width != old(
                self,
            )@.denoiser.width || f.frame.height != old(self)@.denoiser.height)),
            res matches Err(e) ==> e is WrongSize,
            res matches Ok(step) ==> if next_frame matches Some(f) && old(self)@.repeats_time(
                f.presentation_timestamp,
            ) {
                final(self)@ == old(self)@.skipped() && step is NotYet
            } else {
                let fed = match next_frame {
                    Some(f) => old(self)@.fed(&f),
                    None => old(self)@.flushed(),
                };
                &&& final(self)@ == fed.taken()
                &&& match step {
                    DiffStep::Frame(m) => fed.denoiser.processed.len() > 0 && is_diff_message(
                        fed.denoiser,
                        &m,
                    ),
                    DiffStep::NotYet => fed.denoiser.processed.len() == 0
                        && fed.denoiser.metadatas.len() > 0,
                    DiffStep::Done => fed.denoiser.processed.len() == 0
                        && fed.denoiser.metadatas.len() == 0,
                }
            },
    {
        match next_frame {
            Some(frame) => {
                if frame.frame.width != self.denoiser.splat.width || frame.frame.height
                    != self.denoiser.splat.height {
                    return Err(Error::WrongSize(wrong_size_message(
                        self.ordinal_frame_number + 1,
                        frame.frame.width,
                        frame.frame.height,
                    )));
                }
                let ordinal = self.ordinal_frame_number + 1;
                let pts = frame.presentation_timestamp - self.last_frame_duration.shift_every_pts_by();
                if self.ordinal_frame_number > 0 && pts == self.last_frame_pts {
                    self.ordinal_frame_number = ordinal;
                    return Ok(DiffStep::NotYet);
                }
                let duration = match self.last_frame_duration {
                    LastFrameDuration::FixedOffset(offset) => LastFrameDuration::FixedOffset(
                        offset,
                    ),
                    LastFrameDuration::FrameRate(_) => LastFrameDuration::FrameRate(
                        pts - self.last_frame_pts,
                    ),
                };
                let meta = FrameMeta {
                    ordinal_frame_number: ordinal,
                    pts,
                    last_frame_duration: duration,
                };
                let ghost before = self.denoiser@;
                match self.denoiser.push_frame(&frame.frame, &frame.frame_blurred, meta) {
                    Ok(_) => {},
                    Err(_) => {
                        return Err(Error::WrongSize(wrong_size_message(
                            ordinal,
                            frame.frame.width,
                            frame.frame.height,
                        )));
                    },
                }
                self.ordinal_frame_number = ordinal;
                self.last_frame_duration = duration;
                self.last_frame_pts = pts;
                proof {
                    assert forall|i: int|
                        0 <= i < self.denoiser@.metadatas.len() implies meta_in_range(
                        #[trigger] self.denoiser@.metadatas[i],
                    ) by {
                        if i > 0 {
                            assert(self.denoiser@.metadatas[i] == before.metadatas[i - 1]);
                        }
                    }
                }
            },
            None => {
                self.denoiser.flush();
            },
        }
        let ghost fed = self.denoiser@;
        match self.denoiser.pop() {
            Denoised::Done => Ok(DiffStep::Done),
            Denoised::NotYet => Ok(DiffStep::NotYet),
            Denoised::Frame { frame, importance_map, meta } => {
                proof {
                    assert(meta_in_range(fed.metadatas[fed.metadatas.len() - 1]));
                    assert forall|i: int|
                        0 <= i < self.denoiser@.metadatas.len() implies meta_in_range(
                        #[trigger] self.denoiser@.metadatas[i],
                    ) by {
                        assert(self.denoiser@.metadatas[i] == fed.metadatas[i]);
                    }
                }
                let value = meta.last_frame_duration.value();
                Ok(
                    DiffStep::Frame(
                        DiffMessage {
                            importance_map: importance_map.buf,
                            ordinal_frame_number: meta.ordinal_frame_number,
                            image: frame,
                            pts: meta.pts,
                            frame_duration: if value > PTS_PER_DELAY_UNIT {
                                value
                            } else {
                                PTS_PER_DELAY_UNIT
                            },
                        },
                    ),
                )
            },
        }
    }
}

/// The times that go through the denoiser with a frame are in range.
pub open spec fn meta_in_range(meta: FrameMeta) -> bool {
    &&& -MAX_PTS <= meta.pts <= MAX_PTS
    &&& -2 * MAX_PTS <= meta.last_frame_duration.value_spec() <= 2 * MAX_PTS
}

/// A frame that is to be written, before its colours are quantized.
pub struct QuantizeMessage {
    /// The place of the frame among the frames given, from 1, with holes.
    pub ordinal_frame_number: usize,
    /// The place of the frame among the frames written, from 0, without holes.
    pub frame_index: u32,
    pub first_frame_has_transparency: bool,
    pub image: ImgVec<RGBA8>,
    pub importance_map: Vec<u8>,
    pub prev_frame_keeps: bool,
    pub dispose: DisposalMethod,
    /// When the frame stops being shown.
    pub end_pts: i64,
    pub has_next_frame: bool,
}

/// Two images have the same size and the same pixels.
pub open spec fn same_image(a: &ImgVec<RGBA8>, b: &ImgVec<RGBA8>) -> bool {
    a.width == b.width && a.height == b.height && a.buf@ == b.buf@
}

/// Some pixel of `next` is more transparent than the same pixel of `curr`.
pub open spec fn becomes_more_transparent(next: Seq<RGBA8>, curr: Seq<RGBA8>) -> bool {
    exists|i: int| 0 <= i < next.len() && i < curr.len() && (#[trigger] next[i]).a < curr[i].a
}

/// Some pixel is rather transparent than opaque.
pub open spec fn has_transparency(pixels: Seq<RGBA8>) -> bool {
    exists|i: int| 0 <= i < pixels.len() && (#[trigger] pixels[i]).a < 128
}

/// Some pixel matters.
pub open spec fn any_important(map: Seq<u8>) -> bool {
    exists|i: int| 0 <= i < map.len() && #[trigger] map[i] > 0
}

fn images_equal(a: &ImgVec<RGBA8>, b: &ImgVec<RGBA8>) -> (eq: bool)
    ensures
        eq == same_image(a, b),
{
    if a.width != b.width || a.height != b.height || a.buf.len() != b.buf.len() {
        return false;
    }
    let mut i: usize = 0;
    while i < a.buf.len()
        invariant
            a.buf.len() == b.buf.len(),
            i <= a.buf.len(),
            forall|k: int| 0 <= k < i ==> a.buf@[k] == b.buf@[k],
        decreases a.buf.len() - i,
    {
        if a.buf[i] != b.buf[i] {
            return false;
        }
        i += 1;
    }
    assert(a.buf@ =~= b.buf@);
    true
}

fn more_transparent(next: &Vec<RGBA8>, curr: &Vec<RGBA8>) -> (more: bool)
    ensures
        more == becomes_more_transparent(next@, curr@),
{
    let mut i: usize = 0;
    while i < next.len() && i < curr.len()
        invariant
            forall|k: int| 0 <= k < i ==> (#[trigger] next@[k]).a >= curr@[k].a,
        decreases next.len() - i,
    {
        if next[i].a < curr[i].a {
            return true;
        }
        i += 1;
    }
    false
}

fn some_transparent(pixels: &Vec<RGBA8>) -> (some: bool)
    ensures
        some == has_transparency(pixels@),
{
    let mut i: usize = 0;
    while i < pixels.len()
        invariant
            i <= pixels.len(),
            forall|k: int| 0 <= k < i ==> (#[trigger] pixels@[k]).a >= 128,
        decreases pixels.len() - i,
    {
        if pixels[i].a < 128 {
            return true;
        }
        i += 1;
    }
    false
}

fn some_important(map: &Vec<u8>) -> (some: bool)
    ensures
        some == any_important(map@),
{
    let mut i: usize = 0;
    while i < map.len()
        invariant
            i <= map.len(),
            forall|k: int| 0 <= k < i ==> #[trigger] map@[k] == 0,
        decreases map.len() - i,
    {
        if map[i] > 0 {
            return true;
        }
        i += 1;
    }
    false
}

/// How a frame is disposed of. Before a frame in which some pixel becomes
/// more transparent, the frame has to be cleared, or its pixels would show
/// through. The last frame is cleared where the animation begins with
/// transparency, so that it can be played again.
pub open spec fn disposal_for(
    curr: &DiffMessage,
    next: Option<DiffMessage>,
    first_frame_has_transparency: bool,
) -> DisposalMethod {
    match next {
        Some(n) => if becomes_more_transparent(n.image.buf@, curr.image.buf@) {
            DisposalMethod::Background
        } else {
            DisposalMethod::Keep
        },
        None => if first_frame_has_transparency {
            DisposalMethod::Background
        } else {
            DisposalMethod::Keep
        },
    }
}

/// Until when a frame is shown: until the next frame, or for the last frame
/// as long as was noted with it.
pub open spec fn end_pts_for(curr: &DiffMessage, next: Option<DiffMessage>) -> int {
    match next {
        Some(n) => n.pts as int,
        None => curr.pts + curr.frame_duration,
    }
}

/// A message where there is one.
pub open spec fn one_or_none(m: Option<QuantizeMessage>) -> Seq<QuantizeMessage> {
    match m {
        Some(m) => seq![m],
        None => Seq::empty(),
    }
}

/// What is sent on of the denoised frames of an animation, in their order.
pub open spec fn sent_frames(frames: Seq<DiffMessage>) -> Seq<QuantizeMessage> {
    Differ::started(frames[0]).sent_from(frames, 1)
}

/// The denoised frames of an animation are well formed and of one size.
pub open spec fn are_frames(frames: Seq<DiffMessage>) -> bool {
    forall|i: int|
        0 <= i < frames.len() ==> (#[trigger] frames[i]).wf() && frames[i].image.buf.len()
            == frames[0].image.buf.len()
}

/// The stage that decides which of the denoised frames are written.
pub struct Differ {
    pub first_frame_has_transparency: bool,
    /// The frame written last is kept on the screen.
    pub prev_frame_keeps: bool,
    /// How many frames have been sent on.
    pub frame_index: u32,
    /// The importance map of the first of the equal frames that the frame
    /// in hand ends.
    pub importance_map: Option<Vec<u8>>,
    /// The frame in hand, which the next frame decides on. None is left
    /// after the last.
    pub current: Option<DiffMessage>,
}

impl Differ {
    pub open spec fn wf(&self) -> bool {
        &&& (self.current matches Some(c) ==> c.wf())
        &&& (self.importance_map matches Some(map) ==> self.current is Some && map.len()
            == self.current->0.image.buf.len())
    }

    /// The importance map that the frame in hand is sent on with.
    pub open spec fn map_in_hand(&self) -> Seq<u8> {
        match self.importance_map {
            Some(map) => map@,
            None => self.current->0.importance_map@,
        }
    }

    /// Whether the next frame takes the place of the frame in hand at
    /// once, so that the frame in hand would be shown for no time.
    pub open spec fn replaced_at_once(&self, next: Option<DiffMessage>) -> bool {
        next matches Some(n) && n.pts == self.current->0.pts
    }

    /// Whether the frame in hand is sent on, once the next frame is known:
    /// not where the next frame is the same, not where the next frame comes
    /// at the same time, and not where it would change nothing on a screen
    /// that was kept.
    pub open spec fn sends(&self, next: Option<DiffMessage>) -> bool {
        &&& !(next matches Some(n) && same_image(&n.image, &self.current->0.image))
        &&& !self.replaced_at_once(next)
        &&& (!self.prev_frame_keeps || any_important(self.map_in_hand()))
    }

    /// The importance map that the frame in hand is sent on with, as it
    /// is held.
    pub open spec fn held_map(&self) -> Vec<u8> {
        match self.importance_map {
            Some(map) => map,
            None => self.current->0.importance_map,
        }
    }

    /// What the frame in hand is sent on as, once the next frame is known.
    pub open spec fn message(&self, next: Option<DiffMessage>) -> QuantizeMessage {
        QuantizeMessage {
            ordinal_frame_number: self.current->0.ordinal_frame_number,
            frame_index: self.frame_index,
            first_frame_has_transparency: self.first_frame_has_transparency,
            image: self.current->0.image,
            importance_map: self.held_map(),
            prev_frame_keeps: self.prev_frame_keeps,
            dispose: disposal_for(&self.current->0, next, self.first_frame_has_transparency),
            end_pts: end_pts_for(&self.current->0, next) as i64,
            has_next_frame: next is Some,
        }
    }

    /// What the stage sends on for the frame in hand, once the next frame
    /// is known.
    pub open spec fn decision(&self, next: Option<DiffMessage>) -> Option<QuantizeMessage> {
        if self.sends(next) {
            Some(self.message(next))
        } else {
            None
        }
    }

    /// The stage with the next frame in hand. Where the frame in hand was
    /// sent, the frames are counted on and the stage notes whether the
    /// screen is kept; where the next frame repeats it, its importance map
    /// is kept for the next.
    pub open spec fn advanced(&self, next: Option<DiffMessage>) -> Differ {
        if self.sends(next) {
            Differ {
                first_frame_has_transparency: self.first_frame_has_transparency,
                prev_frame_keeps: self.message(next).dispose == DisposalMethod::Keep,
                frame_index: (self.frame_index + 1) as u32,
                importance_map: None,
                current: next,
            }
        } else if next matches Some(n) && same_image(&n.image, &self.current->0.image) {
            Differ {
                first_frame_has_transparency: self.first_frame_has_transparency,
                prev_frame_keeps: self.prev_frame_keeps,
                frame_index: self.frame_index,
                importance_map: Some(self.held_map()),
                current: next,
            }
        } else {
            Differ {
                first_frame_has_transparency: self.first_frame_has_transparency,
                prev_frame_keeps: self.prev_frame_keeps,
                frame_index: self.frame_index,
                importance_map: None,
                current: next,
            }
        }
    }

    /// The stage as it starts, with the first frame in hand.
    pub open spec fn started(first_frame: DiffMessage) -> Differ {
        Differ {
            first_frame_has_transparency: has_transparency(first_frame.image.buf@),
            prev_frame_keeps: false,
            frame_index: 0,
            importance_map: None,
            current: Some(first_frame),
        }
    }

    /// What the stage sends on of the frames from place `k` on and of the
    /// frame before them, which it has in hand.
    pub open spec fn sent_from(&self, frames: Seq<DiffMessage>, k: int) -> Seq<QuantizeMessage>
        decreases frames.len() - k,
    {
        if k >= frames.len() {
            one_or_none(self.decision(None))
        } else {
            one_or_none(self.decision(Some(frames[k]))) + self.advanced(
                Some(frames[k]),
            ).sent_from(frames, k + 1)
        }
    }

    /// The stage with the first frame in hand.
    pub fn new(first_frame: DiffMessage) -> (d: Differ)
        requires
            first_frame.wf(),
        ensures
            d.wf(),
            d == Differ::started(first_frame),
            d.current == Some(first_frame),
            d.first_frame_has_transparency == has_transparency(first_frame.image.buf@),
            !d.prev_frame_keeps,
            d.frame_index == 0,
            d.importance_map is None,
    {
        let first_frame_has_transparency = some_transparent(&first_frame.image.buf);
        Differ {
            first_frame_has_transparency,
            prev_frame_keeps: false,
            frame_index: 0,
            importance_map: None,
            current: Some(first_frame),
        }
    }

    /// Decides on the frame in hand now that the next frame is known, and
    /// takes the next frame in hand. A frame that the next one repeats is
    /// dropped, and the time it was shown goes to the frame that ends the
    /// repetition; the importance map of the first of them is kept for it.
    /// A frame that another picture follows at the same time is dropped
    /// too, since it would be shown for no time.
    pub fn advance(&mut self, next_frame: Option<DiffMessage>) -> (res: Result<
        Option<QuantizeMessage>,
        Error,
    >)
        requires
            old(self).wf(),
            old(self).current is Some,
            next_frame matches Some(n) ==> n.wf() && n.image.buf.len() == old(
                self,
            ).current->0.image.buf.len(),
        ensures
            final(self).wf(),
            final(self).first_frame_has_transparency == old(self).first_frame_has_transparency,
            final(self).current == next_frame,
            res is Err <==> old(self).sends(next_frame) && old(self).frame_index == u32::MAX,
            res matches Err(e) ==> e is WrongSize,
            res matches Ok(sent) ==> sent == old(self).decision(next_frame) && *final(self) == old(
                self,
            ).advanced(next_frame),
            res matches Ok(None) ==> {
                &&& !old(self).sends(next_frame)
                &&& final(self).frame_index == old(self).frame_index
                &&& final(self).prev_frame_keeps == old(self).prev_frame_keeps
                &&& if next_frame matches Some(n) && same_image(
                    &n.image,
                    &old(self).current->0.image,
                ) {
                    final(self).importance_map matches Some(map) && map@ == old(self).map_in_hand()
                } else {
                    final(self).importance_map is None
                }
            },
            res matches Ok(Some(m)) ==> {
                &&& old(self).sends(next_frame)
                &&& m.image == old(self).current->0.image
                &&& m.importance_map@ == old(self).map_in_hand()
                &&& m.ordinal_frame_number == old(self).current->0.ordinal_frame_number
                &&& m.frame_index == old(self).frame_index
                &&& m.first_frame_has_transparency == old(self).first_frame_has_transparency
                &&& m.prev_frame_keeps == old(self).prev_frame_keeps
                &&& m.dispose == disposal_for(
                    &old(self).current->0,
                    next_frame,
                    old(self).first_frame_has_transparency,
                )
                &&& m.end_pts == end_pts_for(&old(self).current->0, next_frame)
                &&& m.has_next_frame == next_frame is Some
                &&& final(self).frame_index == old(self).frame_index + 1
                &&& final(self).prev_frame_keeps == (m.dispose == DisposalMethod::Keep)
                &&& final(self).importance_map is None
            },
    {
        let mut hand = next_frame;
        std::mem::swap(&mut hand, &mut self.current);
        let mut curr = match hand {
            Some(curr) => curr,
            None => {
                return Ok(None);
            },
        };
        let dispose = match &self.current {
            Some(next) => {
                // a frame that the next one repeats is dropped
                if images_equal(&next.image, &curr.image) {
                    if self.importance_map.is_none() {
                        self.importance_map = Some(curr.importance_map);
                    }
                    return Ok(None);
                }
                if next.pts == curr.pts {
                    self.importance_map = None;
                    return Ok(None);
                }
                if more_transparent(&next.image.buf, &curr.image.buf) {
                    DisposalMethod::Background
                } else {
                    DisposalMethod::Keep
                }
            },
            None => {
                // the last frame clears the screen for an animation
                // that begins with transparency
                if self.first_frame_has_transparency {
                    DisposalMethod::Background
                } else {
                    DisposalMethod::Keep
                }
            },
        };
        let end_pts = match &self.current {
            Some(next) => next.pts,
            None => curr.pts + curr.frame_duration,
        };
        let has_next_frame = self.current.is_some();
        let importance_map = match self.importance_map.take() {
            Some(map) => map,
            None => curr.importance_map,
        };
        if self.prev_frame_keeps && !some_important(&importance_map) {
            return Ok(None);
        }
        if self.frame_index == u32::MAX {
            return Err(Error::WrongSize("too many frames".to_string()));
        }
        let msg = QuantizeMessage {
            image: curr.image,
            ordinal_frame_number: curr.ordinal_frame_number,
            frame_index: self.frame_index,
            first_frame_has_transparency: self.first_frame_has_transparency,
            importance_map,
            prev_frame_keeps: self.prev_frame_keeps,
            dispose,
            end_pts,
            has_next_frame,
        };
        self.frame_index += 1;
        self.prev_frame_keeps = dispose == DisposalMethod::Keep;
        Ok(Some(msg))
    }

    /// Decides on all the denoised frames of an animation, one after the
    /// other, and gives what is sent on of them. Without a frame there is
    /// nothing to decide on.
    pub fn run(frames: Vec<DiffMessage>) -> (res: Result<Vec<QuantizeMessage>, Error>)
        requires
            are_frames(frames@),
        ensures
            frames.len() == 0 ==> (res matches Err(e) && e is NoFrames),
            0 < frames.len() <= u32::MAX ==> res is Ok,
            res matches Ok(out) ==> frames.len() > 0 && out@ == sent_frames(frames@),
            res matches Err(e) ==> e is NoFrames || e is WrongSize,
    {
        let ghost all = frames@;
        let n = frames.len();
        // the frames are taken from the end, so they are turned round first
        let mut left = frames;
        let mut turned: Vec<DiffMessage> = Vec::new();
        while left.len() > 0
            invariant
                left.len() + turned.len() == n,
                n == all.len(),
                left@ == all.subrange(0, left.len() as int),
                forall|j: int| 0 <= j < turned.len() ==> turned@[j] == all[n - 1 - j],
            decreases left.len(),
        {
            let ghost before = left@;
            let frame = left.pop().unwrap();
            assert(frame == all[left.len() as int]) by {
                assert(before[before.len() - 1] == all.subrange(0, before.len() as int)[before.len()
                    - 1]);
            }
            assert(left@ =~= all.subrange(0, left.len() as int));
            turned.push(frame);
        }
        let first = match turned.pop() {
            Some(first) => first,
            None => {
                return Err(Error::NoFrames);
            },
        };
        assert(first == all[0]);
        let mut differ = Differ::new(first);
        let mut out: Vec<QuantizeMessage> = Vec::new();
        let mut k: usize = 1;
        loop
            invariant_except_break
                n == all.len(),
                all == frames@,
                are_frames(all),
                1 <= k <= n,
                turned.len() == n - k,
                forall|j: int| 0 <= j < turned.len() ==> turned@[j] == all[n - 1 - j],
                differ.wf(),
                differ.current == Some(all[k - 1]),
                differ.frame_index < k,
                out@ + differ.sent_from(all, k as int) == sent_frames(all),
            ensures
                out@ == sent_frames(all),
            decreases n - k,
        {
            let next = turned.pop();
            let ghost d = differ;
            let ghost sent_before = out@;
            assert(k < n ==> next == Some(all[k as int]));
            assert(k == n ==> next is None);
            let last = next.is_none();
            match differ.advance(next) {
                Ok(Some(m)) => {
                    out.push(m);
                },
                Ok(None) => {},
                Err(e) => {
                    return Err(e);
                },
            }
            assert(out@ =~= sent_before + one_or_none(d.decision(next)));
            if last {
                assert(out@ =~= sent_before + d.sent_from(all, k as int));
                break ;
            }
            assert(sent_before + d.sent_from(all, k as int) =~= out@ + differ.sent_from(
                all,
                k + 1,
            ));
            k += 1;
        }
        Ok(out)
    }
}

/// The frame that follows the frame at place `i`, if one does.
pub open spec fn frame_after(frames: Seq<DiffMessage>, i: int) -> Option<DiffMessage> {
    if i + 1 < frames.len() {
        Some(frames[i + 1])
    } else {
        None
    }
}

/// Every frame shows the picture of the first.
pub open spec fn all_repeat(frames: Seq<DiffMessage>) -> bool {
    forall|i: int|
        0 <= i < frames.len() ==> same_image(&(#[trigger] frames[i]).image, &frames[0].image)
}

/// Every frame has a pixel that matters, and another picture at another
/// time follows it.
pub open spec fn all_change(frames: Seq<DiffMessage>) -> bool {
    forall|i: int|
        0 <= i < frames.len() ==> any_important((#[trigger] frames[i]).importance_map@) && (i + 1
            < frames.len() ==> !same_image(&frames[i + 1].image, &frames[i].image) && frames[i
            + 1].pts != frames[i].pts)
}

proof fn lemma_repeats_from(d: Differ, frames: Seq<DiffMessage>, k: int)
    requires
        1 <= k <= frames.len(),
        all_repeat(frames),
        d.current == Some(frames[k - 1]),
        !d.prev_frame_keeps,
    ensures
        d.sent_from(frames, k).len() == 1,
        d.sent_from(frames, k)[0] == (QuantizeMessage {
            ordinal_frame_number: frames.last().ordinal_frame_number,
            frame_index: d.frame_index,
            first_frame_has_transparency: d.first_frame_has_transparency,
            image: frames.last().image,
            importance_map: d.held_map(),
            prev_frame_keeps: false,
            dispose: disposal_for(&frames.last(), None, d.first_frame_has_transparency),
            end_pts: end_pts_for(&frames.last(), None) as i64,
            has_next_frame: false,
        }),
    decreases frames.len() - k,
{
    assert(same_image(&frames[k - 1].image, &frames[0].image));
    if k < frames.len() {
        let next = Some(frames[k]);
        assert(same_image(&frames[k].image, &frames[0].image));
        assert(same_image(&frames[k].image, &frames[k - 1].image));
        assert(d.decision(next) is None);
        let after = d.advanced(next);
        lemma_repeats_from(after, frames, k + 1);
        assert(d.sent_from(frames, k) =~= after.sent_from(frames, k + 1));
    } else {
        assert(d.sends(None));
    }
}

/// Frames that all show one picture are sent on as one frame. It is the
/// last of them, which is shown until its end; it goes with the importance
/// map of the first.
pub proof fn lemma_repeated_frames_send_one(frames: Seq<DiffMessage>)
    requires
        frames.len() > 0,
        all_repeat(frames),
    ensures
        sent_frames(frames).len() == 1,
        sent_frames(frames)[0].frame_index == 0,
        sent_frames(frames)[0].ordinal_frame_number == frames.last().ordinal_frame_number,
        sent_frames(frames)[0].image == frames.last().image,
        sent_frames(frames)[0].importance_map == frames[0].importance_map,
        sent_frames(frames)[0].end_pts == (frames.last().pts + frames.last().frame_duration) as i64,
        !sent_frames(frames)[0].has_next_frame,
{
    lemma_repeats_from(Differ::started(frames[0]), frames, 1);
}

proof fn lemma_changes_from(d: Differ, frames: Seq<DiffMessage>, k: int)
    requires
        1 <= k <= frames.len() <= u32::MAX,
        all_change(frames),
        d.current == Some(frames[k - 1]),
        d.importance_map is None,
        d.frame_index == k - 1,
    ensures
        d.sent_from(frames, k).len() == frames.len() - k + 1,
        forall|j: int|
            0 <= j < frames.len() - k + 1 ==> {
                let m = #[trigger] d.sent_from(frames, k)[j];
                &&& m.frame_index == k - 1 + j
                &&& m.ordinal_frame_number == frames[k - 1 + j].ordinal_frame_number
                &&& m.image == frames[k - 1 + j].image
                &&& m.importance_map == frames[k - 1 + j].importance_map
                &&& m.end_pts == end_pts_for(
                    &frames[k - 1 + j],
                    frame_after(frames, k - 1 + j),
                ) as i64
                &&& m.has_next_frame == (k + j < frames.len())
            },
    decreases frames.len() - k,
{
    let cur = frames[k - 1];
    assert(any_important(cur.importance_map@));
    if k < frames.len() {
        let next = Some(frames[k]);
        assert(d.sends(next));
        let after = d.advanced(next);
        lemma_changes_from(after, frames, k + 1);
        let rest = after.sent_from(frames, k + 1);
        let all = d.sent_from(frames, k);
        assert(all =~= seq![d.message(next)] + rest);
        assert forall|j: int| 0 <= j < frames.len() - k + 1 implies ({
            let m = #[trigger] all[j];
            &&& m.frame_index == k - 1 + j
            &&& m.ordinal_frame_number == frames[k - 1 + j].ordinal_frame_number
            &&& m.image == frames[k - 1 + j].image
            &&& m.importance_map == frames[k - 1 + j].importance_map
            &&& m.end_pts == end_pts_for(&frames[k - 1 + j], frame_after(frames, k - 1 + j)) as i64
            &&& m.has_next_frame == (k + j < frames.len())
        }) by {
            if j > 0 {
                assert(all[j] == rest[j - 1]);
            }
        }
    } else {
        assert(d.sends(None));
        assert(d.sent_from(frames, k) =~= seq![d.message(None)]);
    }
}

/// Where every frame has a pixel that matters and is followed by another
/// picture at another time, every frame is sent on, in its order: each is
/// shown until the next begins, and the last until its end.
pub proof fn lemma_changing_frames_all_sent(frames: Seq<DiffMessage>)
    requires
        0 < frames.len() <= u32::MAX,
        all_change(frames),
    ensures
        sent_frames(frames).len() == frames.len(),
        forall|i: int|
            0 <= i < frames.len() ==> {
                let m = #[trigger] sent_frames(frames)[i];
                &&& m.frame_index == i
                &&& m.ordinal_frame_number == frames[i].ordinal_frame_number
                &&& m.image == frames[i].image
                &&& m.importance_map == frames[i].importance_map
                &&& m.end_pts == end_pts_for(&frames[i], frame_after(frames, i)) as i64
                &&& m.has_next_frame == (i + 1 < frames.len())
            },
{
    lemma_changes_from(Differ::started(frames[0]), frames, 1);
}

} // verus!
