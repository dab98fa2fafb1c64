//! The loop of the process that parses, schedules, and decodes a dynamic
//! wallpaper.
//!
//! The loop is a state machine: it says what to do next and is told what came of
//! it. Moments and spans are nanoseconds.

use vstd::prelude::*;

use crate::dynamic_wallpaper::clock::ClockSnapshot;
use crate::dynamic_wallpaper::heic::{FrameModel, RgbaFrame};
use crate::dynamic_wallpaper::model::{AppearancePreference, ImageReference, Metadata};
use crate::dynamic_wallpaper::playback::{
    DecodeOutcome, DecodeRequest, Generations, PendingDecode, Playback, PlaybackModel, LAST_MOMENT,
    MAX_FRAME_BYTES,
};

verus! {

/// The pause between two frames of a dissolve.
pub const TRANSITION_INTERVAL: u128 = 16_000_000;

/// The pause between two looks at the clock.
pub const POLL_INTERVAL: u128 = 100_000_000;

/// How much a pair of clocks may drift apart without a suspend.
pub const SUSPEND_DETECTION_THRESHOLD: u128 = 10_000_000;

// ---------------------------------------------------------------------------
// Suspend detection
// ---------------------------------------------------------------------------

/// What a new offset between the boot clock and the monotonic clock means: the
/// offset to remember, and whether the machine was suspended.
pub open spec fn observed(previous: Option<u128>, offset: u128) -> (Option<u128>, bool) {
    match previous {
        None => (Some(offset), false),
        Some(previous) => if offset <= previous {
            (Some(previous), false)
        } else {
            (Some(offset), offset - previous > SUSPEND_DETECTION_THRESHOLD)
        },
    }
}

/// What a reading of the offset means, if there is one.
pub open spec fn sampled(previous: Option<u128>, offset: Option<u128>) -> (Option<u128>, bool) {
    match offset {
        Some(offset) => observed(previous, offset),
        None => (previous, false),
    }
}

/// Detects suspend and resume by the growing offset between the boot clock, which
/// counts suspended time, and the monotonic clock, which does not. It catches a
/// subsecond suspend during a dissolve.
#[derive(Clone, Copy, Debug)]
pub struct SuspendDetector {
    pub offset: Option<u128>,
}

impl SuspendDetector {
    pub fn new(offset: Option<u128>) -> (detector: Self)
        ensures
            detector.offset == offset,
    {
        SuspendDetector { offset }
    }

    /// Takes a new offset, and says whether the machine was suspended.
    pub fn observe(&mut self, offset: u128) -> (suspended: bool)
        ensures
            (final(self).offset, suspended) == observed(old(self).offset, offset),
    {
        match self.offset {
            None => {
                self.offset = Some(offset);
                false
            },
            Some(previous) => {
                if offset <= previous {
                    return false;
                }
                self.offset = Some(offset);
                offset - previous > SUSPEND_DETECTION_THRESHOLD
            },
        }
    }

    /// Takes a reading, if there is one.
    pub fn sample(&mut self, offset: Option<u128>) -> (suspended: bool)
        ensures
            (final(self).offset, suspended) == sampled(old(self).offset, offset),
    {
        match offset {
            Some(offset) => self.observe(offset),
            None => false,
        }
    }
}

/// A clock reading as nanoseconds, nothing before the clock's start. Nanoseconds that
/// make up whole seconds are carried; of more than 32 bits the lowest count.
pub fn timespec_nanoseconds(seconds: i64, nanoseconds: i64) -> (moment: u128)
    ensures
        moment == (if seconds < 0 {
            0
        } else {
            seconds as int
        }) * 1_000_000_000 + (if nanoseconds < 0 {
            0
        } else {
            nanoseconds as int % 0x1_0000_0000
        }),
{
    let whole: u128 = if seconds < 0 {
        0
    } else {
        seconds as u128
    };
    let part: u128 = if nanoseconds < 0 {
        0
    } else {
        nanoseconds as u128 % 0x1_0000_0000
    };
    whole * 1_000_000_000 + part
}

/// What one reading of the boot clock, between two of the monotonic clock, says
/// of their offset.
#[derive(Clone, Copy, Debug, PartialEq, Eq, Structural)]
pub enum OffsetReading {
    /// The reading took too long to be exact.
    Imprecise,
    /// The offset, unless it cannot be represented.
    Offset(Option<u128>),
}

/// What a reading says of the offset between the two clocks.
pub open spec fn offset_read(before: u128, boottime: u128, after: u128) -> OffsetReading {
    let sampling = if after > before {
        after - before
    } else {
        0
    };
    if sampling > SUSPEND_DETECTION_THRESHOLD {
        OffsetReading::Imprecise
    } else {
        let midpoint = before + sampling / 2;
        if midpoint > LAST_MOMENT {
            OffsetReading::Offset(None)
        } else {
            OffsetReading::Offset(
                Some(
                    if boottime > midpoint {
                        (boottime - midpoint) as u128
                    } else {
                        0
                    },
                ),
            )
        }
    }
}

/// Judges one reading of the boot clock between two of the monotonic clock.
pub fn read_offset(before: u128, boottime: u128, after: u128) -> (reading: OffsetReading)
    ensures
        reading == offset_read(before, boottime, after),
{
    let sampling: u128 = after.saturating_sub(before);
    if sampling > SUSPEND_DETECTION_THRESHOLD {
        return OffsetReading::Imprecise;
    }
    match before.checked_add(sampling / 2) {
        Some(midpoint) => if midpoint > LAST_MOMENT {
            OffsetReading::Offset(None)
        } else {
            OffsetReading::Offset(Some(boottime.saturating_sub(midpoint)))
        },
        None => OffsetReading::Offset(None),
    }
}

/// The offset after up to three readings.
pub open spec fn offset_among(readings: Seq<(u128, u128, u128)>, from: int) -> Option<u128>
    decreases readings.len() - from,
{
    if from < 0 || from >= readings.len() || from >= 3 {
        None
    } else {
        match offset_read(readings[from].0, readings[from].1, readings[from].2) {
            OffsetReading::Imprecise => offset_among(readings, from + 1),
            OffsetReading::Offset(offset) => offset,
        }
    }
}

/// The offset of the first of up to three readings that is exact.
pub fn suspend_clock_offset(readings: &Vec<(u128, u128, u128)>) -> (offset: Option<u128>)
    ensures
        offset == offset_among(readings@, 0),
{
    let mut index: usize = 0;
    while index < readings.len() && index < 3
        invariant
            index <= readings@.len(),
            index <= 3,
            offset_among(readings@, 0) == offset_among(readings@, index as int),
        decreases readings@.len() - index,
    {
        let (before, boottime, after) = readings[index];
        match read_offset(before, boottime, after) {
            OffsetReading::Imprecise => {},
            OffsetReading::Offset(offset) => return offset,
        }
        index += 1;
    }
    None
}

// ---------------------------------------------------------------------------
// Scheduling and decoding
// ---------------------------------------------------------------------------

/// Applies a schedule update and reports whether the presented pixels changed
/// without a decode: a discontinuity that ends an active dissolve.
pub fn apply_heic_schedule(
    playback: &mut Playback,
    clock: ClockSnapshot,
    monotonic: u128,
    discontinuity: bool,
    generations: &mut Generations,
) -> (changed: bool)
    requires
        old(playback)@.wf(),
        clock.wf(),
    ensures
        final(playback)@.wf(),
        ({
            let (after, outcome, used) = crate::dynamic_wallpaper::playback::synchronized(
                old(playback)@,
                clock,
                monotonic,
                discontinuity,
                old(generations).next,
            );
            &&& final(playback)@ == after
            &&& changed == outcome.presentation_changed
            &&& final(generations).next == numbered(old(generations).next, used)
        }),
{
    let outcome = if discontinuity {
        playback.resynchronize_after_discontinuity(clock, monotonic, generations)
    } else {
        playback.synchronize(clock, monotonic, generations)
    };
    outcome.presentation_changed
}

/// The next number, after a request was numbered or not.
pub open spec fn numbered(next: u64, used: bool) -> u64 {
    if used {
        crate::dynamic_wallpaper::playback::following(next)
    } else {
        next
    }
}

/// Reports at most one decode failure per successful frame.
#[derive(Clone, Copy, Debug)]
pub struct HeicDiagnostics {
    pub decode_failure_reported: bool,
}

/// What an outcome means for the report of failures: whether the last one was
/// reported, and whether to report one now.
pub open spec fn diagnosed(reported: bool, outcome: DecodeOutcome) -> (bool, bool) {
    match outcome {
        DecodeOutcome::Presented | DecodeOutcome::Transitioning => (false, false),
        DecodeOutcome::Failed | DecodeOutcome::Rejected => (true, !reported),
        DecodeOutcome::Ignored => (reported, false),
    }
}

impl HeicDiagnostics {
    pub fn new() -> (diagnostics: Self)
        ensures
            !diagnostics.decode_failure_reported,
    {
        HeicDiagnostics { decode_failure_reported: false }
    }

    /// Notes a failure, and says whether to report it.
    pub fn decode_failure(&mut self) -> (report: bool)
        ensures
            final(self).decode_failure_reported,
            report == !old(self).decode_failure_reported,
    {
        let report = !self.decode_failure_reported;
        self.decode_failure_reported = true;
        report
    }

    /// Notes a success.
    pub fn decoded(&mut self)
        ensures
            !final(self).decode_failure_reported,
    {
        self.decode_failure_reported = false;
    }
}

/// What a finished decode comes to.
pub struct Finished {
    pub playback: PlaybackModel,
    pub next: u64,
    pub reported: bool,
    pub publish: bool,
    pub report: bool,
}

/// What a finished decode comes to: it is held against the time at which it
/// finished, not the time at which it was asked for.
pub open spec fn decode_finished(
    playback: PlaybackModel,
    next: u64,
    reported: bool,
    request: DecodeRequest,
    result: Option<FrameModel>,
    capacity: usize,
    reserved: bool,
    clock: ClockSnapshot,
    monotonic: u128,
    discontinuity: bool,
) -> Finished {
    let (scheduled, schedule, first) = crate::dynamic_wallpaper::playback::synchronized(
        playback,
        clock,
        monotonic,
        discontinuity,
        next,
    );
    let (after, outcome, second) = crate::dynamic_wallpaper::playback::completed(
        scheduled,
        request,
        result,
        capacity,
        reserved,
        monotonic,
        MAX_FRAME_BYTES,
        numbered(next, first),
    );
    Finished {
        playback: after,
        next: numbered(numbered(next, first), second),
        reported: diagnosed(reported, outcome).0,
        publish: schedule.presentation_changed || outcome == DecodeOutcome::Presented || outcome
            == DecodeOutcome::Transitioning,
        report: diagnosed(reported, outcome).1,
    }
}

/// Completes a decode against the freshly sampled time, and says whether to
/// publish the frame on show and whether to report a failure. `clock` and
/// `monotonic` must be sampled after the decode returned.
pub fn finish_heic_decode(
    playback: &mut Playback,
    request: DecodeRequest,
    result: Result<RgbaFrame, ()>,
    clock: ClockSnapshot,
    monotonic: u128,
    discontinuity: bool,
    diagnostics: &mut HeicDiagnostics,
    generations: &mut Generations,
) -> (verdict: (bool, bool))
    requires
        old(playback)@.wf(),
        clock.wf(),
    ensures
        final(playback)@.wf(),
        exists|capacity: usize, reserved: bool|
            {
                let finished = #[trigger] decode_finished(
                    old(playback)@,
                    old(generations).next,
                    old(diagnostics).decode_failure_reported,
                    request,
                    crate::dynamic_wallpaper::playback::answer_of(result),
                    capacity,
                    reserved,
                    clock,
                    monotonic,
                    discontinuity,
                );
                &&& result matches Ok(frame) ==> capacity >= frame.pixels@.len()
                &&& final(playback)@ == finished.playback
                &&& final(generations).next == finished.next
                &&& final(diagnostics).decode_failure_reported == finished.reported
                &&& verdict == (finished.publish, finished.report)
            },
{
    let mut publish = apply_heic_schedule(playback, clock, monotonic, discontinuity, generations);
    let mut report = false;
    let ghost scheduled = playback@;
    let ghost next = generations.next;
    let outcome = playback.complete_decode(request, result, monotonic, generations);
    match outcome {
        DecodeOutcome::Presented | DecodeOutcome::Transitioning => {
            diagnostics.decoded();
            publish = true;
        },
        DecodeOutcome::Failed | DecodeOutcome::Rejected => {
            report = diagnostics.decode_failure();
        },
        DecodeOutcome::Ignored => {},
    }
    proof {
        let (capacity, reserved) = choose|capacity: usize, reserved: bool|
            {
                let (after, expected, used) =
                    #[trigger] crate::dynamic_wallpaper::playback::completed(
                    scheduled,
                    request,
                    crate::dynamic_wallpaper::playback::answer_of(result),
                    capacity,
                    reserved,
                    monotonic,
                    MAX_FRAME_BYTES,
                    next,
                );
                &&& result matches Ok(frame) ==> capacity >= frame.pixels@.len()
                &&& playback@ == after
                &&& outcome == expected
                &&& generations.next == numbered(next, used)
            };
        let finished = decode_finished(
            old(playback)@,
            old(generations).next,
            old(diagnostics).decode_failure_reported,
            request,
            crate::dynamic_wallpaper::playback::answer_of(result),
            capacity,
            reserved,
            clock,
            monotonic,
            discontinuity,
        );
        assert(playback@ == finished.playback);
    }
    (publish, report)
}

// ---------------------------------------------------------------------------
// The loop
// ---------------------------------------------------------------------------

/// What the loop waits for.
#[derive(Clone, Copy, Debug, PartialEq, Eq, Structural)]
pub enum Stage {
    /// The time, at the start of a round.
    Sampling,
    /// The consumer, after the schedule changed the frame on show at a moment.
    ShowingSchedule(u128),
    /// The consumer, after a dissolve changed the frame on show.
    ShowingBlend,
    /// The decoder.
    Decoding(DecodeRequest),
    /// The consumer, after a decode changed the frame on show.
    ShowingImage,
    /// The end of the pause.
    Sleeping,
}

/// What came of the last action.
#[derive(Debug)]
pub enum WorkerEvent {
    /// The time, and the offset of the boot clock, as far as they can be had.
    Time { clock: Option<ClockSnapshot>, monotonic: u128, offset: Option<u128> },
    /// Whether the consumer is still there.
    Published(bool),
    /// The answer of the decoder, and the time after it.
    Decoded {
        result: Result<RgbaFrame, ()>,
        clock: Option<ClockSnapshot>,
        monotonic: u128,
        offset: Option<u128>,
    },
    /// The pause is over.
    Woke,
    /// The consumer is going away.
    Cancelled,
}

/// What to do next.
#[derive(Clone, Copy, Debug, PartialEq, Eq, Structural)]
pub enum WorkerAction {
    SampleTime,
    Publish,
    Decode(DecodeRequest),
    Sleep(u128),
    Stop,
}

/// A worker by its contents.
#[verifier::ext_equal]
pub struct WorkerModel {
    pub stage: Stage,
    pub playback: PlaybackModel,
    pub initial_clock: ClockSnapshot,
    pub offset: Option<u128>,
    pub reported: bool,
}

/// The process that parses, schedules, and decodes a dynamic wallpaper.
#[derive(Debug)]
pub struct HeicWorker {
    stage: Stage,
    playback: Playback,
    initial_clock: ClockSnapshot,
    suspend: SuspendDetector,
    diagnostics: HeicDiagnostics,
}

impl View for HeicWorker {
    type V = WorkerModel;

    closed spec fn view(&self) -> WorkerModel {
        WorkerModel {
            stage: self.stage,
            playback: self.playback@,
            initial_clock: self.initial_clock,
            offset: self.suspend.offset,
            reported: self.diagnostics.decode_failure_reported,
        }
    }
}

/// A clock, or the one the worker started with.
pub open spec fn clock_or(clock: Option<ClockSnapshot>, initial: ClockSnapshot) -> ClockSnapshot {
    match clock {
        Some(clock) => clock,
        None => initial,
    }
}

/// Whether an event answers the action that led to a stage.
pub open spec fn answers(stage: Stage, event: WorkerEvent) -> bool {
    match event {
        WorkerEvent::Time { clock, .. } => stage == Stage::Sampling && (clock matches Some(clock)
            ==> clock.wf()),
        WorkerEvent::Published(_) => stage is ShowingSchedule || stage == Stage::ShowingBlend
            || stage == Stage::ShowingImage,
        WorkerEvent::Decoded { clock, .. } => stage is Decoding && (clock matches Some(clock)
            ==> clock.wf()),
        WorkerEvent::Woke => stage == Stage::Sleeping,
        WorkerEvent::Cancelled => true,
    }
}

impl WorkerModel {
    pub open spec fn wf(self) -> bool {
        self.playback.wf() && self.initial_clock.wf()
    }

    /// The end of a round.
    pub open spec fn resting(self) -> (WorkerModel, WorkerAction) {
        (
            WorkerModel { stage: Stage::Sleeping, ..self },
            WorkerAction::Sleep(
                if self.playback.transition is Some {
                    TRANSITION_INTERVAL
                } else {
                    POLL_INTERVAL
                },
            ),
        )
    }

    /// The part of a round that asks for an image.
    pub open spec fn asking(self) -> (WorkerModel, WorkerAction) {
        match self.playback.pending {
            Some(pending) => if pending.dispatched {
                self.resting()
            } else {
                (
                    WorkerModel {
                        stage: Stage::Decoding(pending.request),
                        playback: PlaybackModel {
                            pending: Some(PendingDecode { dispatched: true, ..pending }),
                            ..self.playback
                        },
                        ..self
                    },
                    WorkerAction::Decode(pending.request),
                )
            },
            None => self.resting(),
        }
    }

    /// The part of a round that samples a dissolve.
    pub open spec fn blending(self, monotonic: u128) -> (WorkerModel, WorkerAction) {
        let (playback, changed) = crate::dynamic_wallpaper::playback::advanced(
            self.playback,
            monotonic,
        );
        if changed {
            (
                WorkerModel { stage: Stage::ShowingBlend, playback, ..self },
                WorkerAction::Publish,
            )
        } else {
            (WorkerModel { playback, ..self }).asking()
        }
    }

    /// The part of a round that looks at the clock. `next` is the next number of a
    /// request, before and after.
    pub open spec fn scheduling(
        self,
        next: u64,
        clock: Option<ClockSnapshot>,
        monotonic: u128,
        offset: Option<u128>,
    ) -> (WorkerModel, WorkerAction, u64) {
        let (remembered, resumed) = sampled(self.offset, offset);
        let (playback, outcome, used) = crate::dynamic_wallpaper::playback::synchronized(
            self.playback,
            clock_or(clock, self.initial_clock),
            monotonic,
            resumed,
            next,
        );
        let scheduled = WorkerModel { playback, offset: remembered, ..self };
        if outcome.presentation_changed {
            (
                WorkerModel { stage: Stage::ShowingSchedule(monotonic), ..scheduled },
                WorkerAction::Publish,
                numbered(next, used),
            )
        } else {
            let (blended, action) = scheduled.blending(monotonic);
            (blended, action, numbered(next, used))
        }
    }
}

impl WorkerModel {
    /// The part of a round that takes the answer of the decoder.
    pub open spec fn finishing(
        self,
        next: u64,
        result: Option<FrameModel>,
        clock: Option<ClockSnapshot>,
        monotonic: u128,
        offset: Option<u128>,
        capacity: usize,
        reserved: bool,
    ) -> (WorkerModel, WorkerAction, bool, u64) {
        let (remembered, resumed) = sampled(self.offset, offset);
        let finished = decode_finished(
            self.playback,
            next,
            self.reported,
            self.stage->Decoding_0,
            result,
            capacity,
            reserved,
            clock_or(clock, self.initial_clock),
            monotonic,
            resumed,
        );
        let after = WorkerModel {
            playback: finished.playback,
            offset: remembered,
            reported: finished.reported,
            ..self
        };
        if finished.publish {
            (
                WorkerModel { stage: Stage::ShowingImage, ..after },
                WorkerAction::Publish,
                finished.report,
                finished.next,
            )
        } else {
            let (rested, action) = after.resting();
            (rested, action, finished.report, finished.next)
        }
    }
}

/// What an event leads to where `next` is the next number of a request: the new
/// state, the next action, whether a decode failure is to be reported, and the
/// next number then.
pub open spec fn worked(
    worker: WorkerModel,
    next: u64,
    event: WorkerEvent,
    capacity: usize,
    reserved: bool,
) -> (WorkerModel, WorkerAction, bool, u64) {
    match event {
        WorkerEvent::Cancelled => (worker, WorkerAction::Stop, false, next),
        WorkerEvent::Woke => (
            WorkerModel { stage: Stage::Sampling, ..worker },
            WorkerAction::SampleTime,
            false,
            next,
        ),
        WorkerEvent::Time { clock, monotonic, offset } => {
            let (after, action, following) = worker.scheduling(next, clock, monotonic, offset);
            (after, action, false, following)
        },
        WorkerEvent::Published(false) => (worker, WorkerAction::Stop, false, next),
        WorkerEvent::Published(true) => {
            let (after, action) = match worker.stage {
                Stage::ShowingSchedule(monotonic) => worker.blending(monotonic),
                Stage::ShowingBlend => worker.asking(),
                _ => worker.resting(),
            };
            (after, action, false, next)
        },
        WorkerEvent::Decoded { result, clock, monotonic, offset } => worker.finishing(
            next,
            crate::dynamic_wallpaper::playback::answer_of(result),
            clock,
            monotonic,
            offset,
            capacity,
            reserved,
        ),
    }
}

impl HeicWorker {
    /// A worker at the start of its first round.
    pub fn new(
        metadata: &Metadata,
        primary: ImageReference,
        appearance: AppearancePreference,
        initial_clock: ClockSnapshot,
        initial_monotonic: u128,
        reduced_motion: bool,
        offset: Option<u128>,
        generations: &mut Generations,
    ) -> (worker: Self)
        requires
            initial_clock.wf(),
        ensures
            worker@.wf(),
            worker@.stage == Stage::Sampling,
            worker@.initial_clock == initial_clock,
            worker@.offset == offset,
            !worker@.reported,
            final(generations).next == crate::dynamic_wallpaper::playback::following(
                old(generations).next,
            ),
            worker@.playback == crate::dynamic_wallpaper::playback::started(
                crate::dynamic_wallpaper::model::selection(*metadata, appearance),
                primary,
                initial_clock,
                initial_monotonic,
                reduced_motion,
                old(generations).next,
            ),
    {
        let playback = Playback::new(
            metadata,
            primary,
            appearance,
            initial_clock,
            initial_monotonic,
            reduced_motion,
            generations,
        );
        HeicWorker {
            stage: Stage::Sampling,
            playback,
            initial_clock,
            suspend: SuspendDetector::new(offset),
            diagnostics: HeicDiagnostics::new(),
        }
    }

    /// The frame on show.
    pub fn frame(&self) -> (frame: Option<&RgbaFrame>)
        ensures
            (match frame {
                Some(frame) => Some(frame@),
                None => None,
            }) == self@.playback.frame(),
    {
        self.playback.frame()
    }

    fn rest(&mut self) -> (action: WorkerAction)
        ensures
            (final(self)@, action) == old(self)@.resting(),
    {
        self.stage = Stage::Sleeping;
        if self.playback.is_transitioning() {
            WorkerAction::Sleep(TRANSITION_INTERVAL)
        } else {
            WorkerAction::Sleep(POLL_INTERVAL)
        }
    }

    fn ask(&mut self) -> (action: WorkerAction)
        ensures
            (final(self)@, action) == old(self)@.asking(),
            old(self)@.wf() ==> final(self)@.wf(),
    {
        match self.playback.take_decode_request() {
            Some(request) => {
                self.stage = Stage::Decoding(request);
                WorkerAction::Decode(request)
            },
            None => self.rest(),
        }
    }

    fn blend(&mut self, monotonic: u128) -> (action: WorkerAction)
        requires
            old(self)@.wf(),
        ensures
            (final(self)@, action) == old(self)@.blending(monotonic),
            final(self)@.wf(),
    {
        if self.playback.advance_transition(monotonic) {
            self.stage = Stage::ShowingBlend;
            return WorkerAction::Publish;
        }
        self.ask()
    }

    fn schedule(
        &mut self,
        clock: Option<ClockSnapshot>,
        monotonic: u128,
        offset: Option<u128>,
        generations: &mut Generations,
    ) -> (action: WorkerAction)
        requires
            old(self)@.wf(),
            clock matches Some(clock) ==> clock.wf(),
        ensures
            (final(self)@, action, final(generations).next) == old(self)@.scheduling(
                old(generations).next,
                clock,
                monotonic,
                offset,
            ),
            final(self)@.wf(),
    {
        let clock = match clock {
            Some(clock) => clock,
            None => self.initial_clock,
        };
        let resumed = self.suspend.sample(offset);
        let changed = apply_heic_schedule(
            &mut self.playback,
            clock,
            monotonic,
            resumed,
            generations,
        );
        if changed {
            self.stage = Stage::ShowingSchedule(monotonic);
            WorkerAction::Publish
        } else {
            self.blend(monotonic)
        }
    }

    fn finish(
        &mut self,
        request: DecodeRequest,
        result: Result<RgbaFrame, ()>,
        clock: Option<ClockSnapshot>,
        monotonic: u128,
        offset: Option<u128>,
        generations: &mut Generations,
    ) -> (next: (WorkerAction, bool))
        requires
            old(self)@.wf(),
            old(self)@.stage == Stage::Decoding(request),
            clock matches Some(clock) ==> clock.wf(),
        ensures
            final(self)@.wf(),
            exists|capacity: usize, reserved: bool|
                {
                    &&& result matches Ok(frame) ==> capacity >= frame.pixels@.len()
                    &&& (
                        final(self)@,
                        next.0,
                        next.1,
                        final(generations).next,
                    ) == #[trigger] old(self)@.finishing(
                        old(generations).next,
                        crate::dynamic_wallpaper::playback::answer_of(result),
                        clock,
                        monotonic,
                        offset,
                        capacity,
                        reserved,
                    )
                },
    {
        let known = match clock {
            Some(clock) => clock,
            None => self.initial_clock,
        };
        let resumed = self.suspend.sample(offset);
        let (publish, report) = finish_heic_decode(
            &mut self.playback,
            request,
            result,
            known,
            monotonic,
            resumed,
            &mut self.diagnostics,
            generations,
        );
        let ghost played = self.playback@;
        let action = if publish {
            self.stage = Stage::ShowingImage;
            WorkerAction::Publish
        } else {
            self.rest()
        };
        proof {
            let (capacity, reserved) = choose|capacity: usize, reserved: bool|
                {
                    let finished = #[trigger] decode_finished(
                        old(self)@.playback,
                        old(generations).next,
                        old(self)@.reported,
                        request,
                        crate::dynamic_wallpaper::playback::answer_of(result),
                        capacity,
                        reserved,
                        known,
                        monotonic,
                        resumed,
                    );
                    &&& result matches Ok(frame) ==> capacity >= frame.pixels@.len()
                    &&& played == finished.playback
                    &&& generations.next == finished.next
                    &&& self@.reported == finished.reported
                    &&& (publish, report) == (finished.publish, finished.report)
                };
            assert((self@, action, report, generations.next) == old(self)@.finishing(
                old(generations).next,
                crate::dynamic_wallpaper::playback::answer_of(result),
                clock,
                monotonic,
                offset,
                capacity,
                reserved,
            ));
        }
        (action, report)
    }

    /// Takes what came of the last action, and says what to do next and whether
    /// to report a decode failure.
    pub fn step(&mut self, event: WorkerEvent, generations: &mut Generations) -> (next: (
        WorkerAction,
        bool,
    ))
        requires
            old(self)@.wf(),
            answers(old(self)@.stage, event),
        ensures
            final(self)@.wf(),
            exists|capacity: usize, reserved: bool|
                {
                    &&& event matches WorkerEvent::Decoded { result: Ok(frame), .. } ==> capacity
                        >= frame.pixels@.len()
                    &&& (final(self)@, next.0, next.1, final(generations).next)
                        == #[trigger] worked(
                        old(self)@,
                        old(generations).next,
                        event,
                        capacity,
                        reserved,
                    )
                },
    {
        match event {
            WorkerEvent::Cancelled => {
                assert((self@, WorkerAction::Stop, false, generations.next) == worked(
                    old(self)@,
                    old(generations).next,
                    event,
                    0,
                    false,
                ));
                (WorkerAction::Stop, false)
            },
            WorkerEvent::Woke => {
                self.stage = Stage::Sampling;
                assert((self@, WorkerAction::SampleTime, false, generations.next) == worked(
                    old(self)@,
                    old(generations).next,
                    event,
                    0,
                    false,
                ));
                (WorkerAction::SampleTime, false)
            },
            WorkerEvent::Time { clock, monotonic, offset } => {
                let action = self.schedule(clock, monotonic, offset, generations);
                assert((self@, action, false, generations.next) == worked(
                    old(self)@,
                    old(generations).next,
                    event,
                    0,
                    false,
                ));
                (action, false)
            },
            WorkerEvent::Published(present) => {
                let action = if !present {
                    WorkerAction::Stop
                } else {
                    match self.stage {
                        Stage::ShowingSchedule(monotonic) => self.blend(monotonic),
                        Stage::ShowingBlend => self.ask(),
                        _ => self.rest(),
                    }
                };
                assert((self@, action, false, generations.next) == worked(
                    old(self)@,
                    old(generations).next,
                    event,
                    0,
                    false,
                ));
                (action, false)
            },
            WorkerEvent::Decoded { result, clock, monotonic, offset } => {
                let request = match self.stage {
                    Stage::Decoding(request) => request,
                    _ => {
                        assert(false);
                        return (WorkerAction::Stop, false);
                    },
                };
                let (action, report) = self.finish(
                    request,
                    result,
                    clock,
                    monotonic,
                    offset,
                    generations,
                );
                proof {
                    let (capacity, reserved) = choose|capacity: usize, reserved: bool|
                        {
                            &&& result matches Ok(frame) ==> capacity >= frame.pixels@.len()
                            &&& (self@, action, report, generations.next)
                                == #[trigger] old(self)@.finishing(
                                old(generations).next,
                                crate::dynamic_wallpaper::playback::answer_of(result),
                                clock,
                                monotonic,
                                offset,
                                capacity,
                                reserved,
                            )
                        };
                    assert((self@, action, report, generations.next) == worked(
                        old(self)@,
                        old(generations).next,
                        event,
                        capacity,
                        reserved,
                    ));
                }
                (action, report)
            },
        }
    }
}

// ---------------------------------------------------------------------------
// Laws
// ---------------------------------------------------------------------------

/// Once the consumer is gone the worker stops, and it never publishes, decodes,
/// or schedules anything more.
pub proof fn law_a_lost_consumer_stops_the_worker(
    worker: WorkerModel,
    next: u64,
    capacity: usize,
    reserved: bool,
)
    ensures
        worked(worker, next, WorkerEvent::Published(false), capacity, reserved) == (
            worker,
            WorkerAction::Stop,
            false,
            next,
        ),
        worked(worker, next, WorkerEvent::Cancelled, capacity, reserved) == (
            worker,
            WorkerAction::Stop,
            false,
            next,
        ),
{
}

/// Between two successful frames at most one decode failure is reported.
pub proof fn law_failures_are_reported_once(
    worker: WorkerModel,
    next: u64,
    event: WorkerEvent,
    capacity: usize,
    reserved: bool,
)
    ensures
        worked(worker, next, event, capacity, reserved).2 ==> !worker.reported && worked(
            worker,
            next,
            event,
            capacity,
            reserved,
        ).0.reported,
        worker.reported && !worked(worker, next, event, capacity, reserved).0.reported ==> worked(
            worker,
            next,
            event,
            capacity,
            reserved,
        ).1 == WorkerAction::Publish,
{
}

/// A suspend is seen once: reading the same offset again reports nothing.
pub proof fn law_a_suspend_is_seen_once(previous: Option<u128>, offset: u128)
    ensures
        observed(observed(previous, offset).0, offset) == (observed(previous, offset).0, false),
        observed(None, offset) == (Some(offset), false),
{
}

/// The largest offset seen so far is remembered. The machine was suspended where a
/// reading exceeds it by more than ten milliseconds; a first reading and a missing one
/// say nothing.
pub proof fn law_suspends_show_in_the_offset(previous: Option<u128>, offset: Option<u128>)
    ensures
        ({
            let (remembered, suspended) = sampled(previous, offset);
            &&& suspended <==> (previous matches Some(previous) && (offset matches Some(offset)
                && offset > previous + 10_000_000))
            &&& (previous matches Some(previous) ==> (offset matches Some(offset)
                ==> remembered == Some(
                if offset < previous {
                    previous
                } else {
                    offset
                },
            )))
            &&& previous is None ==> remembered == offset
            &&& offset is None ==> remembered == previous
        }),
{
}

/// A reading counts where it took at most ten milliseconds. The boot clock is then held
/// against the middle of the two readings of the monotonic clock, rounded down; it is
/// never behind it.
pub proof fn law_readings_are_held_against_their_middle(
    before: u128,
    boottime: u128,
    after: u128,
    middle: u128,
    offset: u128,
)
    requires
        before <= after,
        2 * middle <= before + after < 2 * middle + 2,
        middle <= LAST_MOMENT,
    ensures
        offset_read(before, boottime, after) == OffsetReading::Imprecise <==> after - before
            > 10_000_000,
        after - before <= 10_000_000 && middle + offset == boottime ==> offset_read(
            before,
            boottime,
            after,
        ) == OffsetReading::Offset(Some(offset)),
        after - before <= 10_000_000 && boottime <= middle ==> offset_read(before, boottime, after)
            == OffsetReading::Offset(Some(0)),
{
}

/// Of the first three readings the first exact one decides, whatever follows it; where
/// none is exact there is no offset.
pub proof fn law_the_first_exact_reading_decides(readings: Seq<(u128, u128, u128)>, index: int)
    requires
        0 <= index <= readings.len(),
        index <= 3,
        forall|earlier: int|
            0 <= earlier < index ==> offset_read(
                (#[trigger] readings[earlier]).0,
                readings[earlier].1,
                readings[earlier].2,
            ) == OffsetReading::Imprecise,
    ensures
        index == 3 || index == readings.len() ==> offset_among(readings, 0) is None,
        index < 3 && index < readings.len() ==> (offset_read(
            readings[index].0,
            readings[index].1,
            readings[index].2,
        ) matches OffsetReading::Offset(offset) ==> offset_among(readings, 0) == offset),
{
    reveal_with_fuel(offset_among, 5);
    if index > 0 {
        assert(offset_read(readings[0].0, readings[0].1, readings[0].2)
            == OffsetReading::Imprecise);
    }
    if index > 1 {
        assert(offset_read(readings[1].0, readings[1].1, readings[1].2)
            == OffsetReading::Imprecise);
    }
    if index > 2 {
        assert(offset_read(readings[2].0, readings[2].1, readings[2].2)
            == OffsetReading::Imprecise);
    }
}

/// Numbers are used up one by one.
pub proof fn law_numbers_are_used_one_by_one(next: u64)
    ensures
        numbered(next, false) == next,
        numbered(next, true) != next,
        next < u64::MAX ==> numbered(next, true) == next + 1,
{
}

/// A failed or a refused image is reported unless the one before it was, an image on
/// its way to the screen makes the next failure count again, and an answer nobody waits
/// for changes nothing.
pub proof fn law_every_outcome_is_diagnosed(reported: bool)
    ensures
        diagnosed(reported, DecodeOutcome::Presented) == (false, false),
        diagnosed(reported, DecodeOutcome::Transitioning) == (false, false),
        diagnosed(reported, DecodeOutcome::Failed) == (true, !reported),
        diagnosed(reported, DecodeOutcome::Rejected) == (true, !reported),
        diagnosed(reported, DecodeOutcome::Ignored) == (reported, false),
{
}

/// A round ends with a pause of sixteen milliseconds while a dissolve is on and of a
/// tenth of a second otherwise. A pause changes nothing but that the worker sleeps.
pub proof fn law_rounds_end_with_a_pause(worker: WorkerModel)
    ensures
        worker.playback.transition is Some ==> worker.resting().1 == WorkerAction::Sleep(
            16_000_000,
        ),
        worker.playback.transition is None ==> worker.resting().1 == WorkerAction::Sleep(
            100_000_000,
        ),
        worker.resting().0.stage == Stage::Sleeping,
        worker.resting().0.playback == worker.playback,
        worker.resting().0.initial_clock == worker.initial_clock,
        worker.resting().0.offset == worker.offset,
        worker.resting().0.reported == worker.reported,
{
}

/// A request that waits is handed to the decoder, once: asked again, the worker rests.
/// Where none waits it rests at once.
pub proof fn law_requests_reach_the_decoder_once(worker: WorkerModel, request: DecodeRequest)
    ensures
        ({
            let (after, action) = worker.asking();
            let waits = worker.playback.pending matches Some(pending) && pending.request == request
                && !pending.dispatched;
            &&& waits ==> {
                &&& action == WorkerAction::Decode(request)
                &&& after.stage == Stage::Decoding(request)
                &&& after.playback.frame() == worker.playback.frame()
                &&& after.playback.transition == worker.playback.transition
                &&& after.asking() == after.resting()
                &&& after.playback.pending matches Some(left) && left.request == request
            }
            &&& worker.playback.pending is None || worker.playback.pending->0.dispatched
                ==> worker.asking() == worker.resting()
            &&& after.offset == worker.offset
            &&& after.reported == worker.reported
            &&& after.initial_clock == worker.initial_clock
        }),
{
}

/// A dissolve that changed the frame on show is published before anything else; only
/// where it changed nothing is an image asked for.
pub proof fn law_dissolves_are_published(worker: WorkerModel, monotonic: u128)
    ensures
        ({
            let (playback, changed) = crate::dynamic_wallpaper::playback::advanced(
                worker.playback,
                monotonic,
            );
            let (after, action) = worker.blending(monotonic);
            &&& changed ==> {
                &&& action == WorkerAction::Publish
                &&& after.stage == Stage::ShowingBlend
                &&& after.playback == playback
            }
            &&& !changed ==> action != WorkerAction::Publish && (after.stage == Stage::Sleeping
                || after.stage is Decoding)
            &&& after.playback.frame() == playback.frame()
            &&& after.offset == worker.offset
            &&& after.reported == worker.reported
        }),
{
}

/// A round goes by the clock it was given, and by the one the worker started with where
/// there is none; a suspend makes it start over. What the schedule changed on show is
/// published at once, and remembered with its moment.
pub proof fn law_rounds_go_by_the_clock(
    worker: WorkerModel,
    next: u64,
    clock: ClockSnapshot,
    monotonic: u128,
    offset: Option<u128>,
)
    ensures
        worker.scheduling(next, None, monotonic, offset) == worker.scheduling(
            next,
            Some(worker.initial_clock),
            monotonic,
            offset,
        ),
        ({
            let suspended = worker.offset matches Some(previous) && (offset matches Some(offset)
                && offset > previous + 10_000_000);
            let (playback, outcome, used) = crate::dynamic_wallpaper::playback::synchronized(
                worker.playback,
                clock,
                monotonic,
                suspended,
                next,
            );
            let (after, action, following) = worker.scheduling(
                next,
                Some(clock),
                monotonic,
                offset,
            );
            &&& outcome.presentation_changed ==> {
                &&& action == WorkerAction::Publish
                &&& after.stage == Stage::ShowingSchedule(monotonic)
                &&& after.playback == playback
            }
            &&& !outcome.presentation_changed ==> after.stage == Stage::ShowingBlend || after.stage
                == Stage::Sleeping || after.stage is Decoding
            &&& following == if used && next == u64::MAX {
                0
            } else if used {
                next + 1
            } else {
                next as int
            }
            &&& after.offset == sampled(worker.offset, offset).0
            &&& after.reported == worker.reported
            &&& after.initial_clock == worker.initial_clock
        }),
{
    law_suspends_show_in_the_offset(worker.offset, offset);
}

/// An answer of the decoder is held against the time after it. The frame on show is
/// published where the answer, or the time that passed, changed it, and a failure is
/// reported unless the one before was.
#[verifier::spinoff_prover]
#[verifier::rlimit(60)]
pub proof fn law_answers_are_held_against_the_time(
    playback: PlaybackModel,
    next: u64,
    reported: bool,
    request: DecodeRequest,
    result: Option<FrameModel>,
    capacity: usize,
    reserved: bool,
    clock: ClockSnapshot,
    monotonic: u128,
    discontinuity: bool,
)
    ensures
        ({
            let (scheduled, schedule, first) = crate::dynamic_wallpaper::playback::synchronized(
                playback,
                clock,
                monotonic,
                discontinuity,
                next,
            );
            let (after, outcome, second) = crate::dynamic_wallpaper::playback::completed(
                scheduled,
                request,
                result,
                capacity,
                reserved,
                monotonic,
                MAX_FRAME_BYTES,
                numbered(next, first),
            );
            let finished = decode_finished(
                playback,
                next,
                reported,
                request,
                result,
                capacity,
                reserved,
                clock,
                monotonic,
                discontinuity,
            );
            let shows = outcome == DecodeOutcome::Presented || outcome
                == DecodeOutcome::Transitioning;
            let fails = outcome == DecodeOutcome::Failed || outcome == DecodeOutcome::Rejected;
            &&& finished.playback == after
            &&& finished.publish <==> shows || schedule.presentation_changed
            &&& finished.report <==> fails && !reported
            &&& finished.reported <==> fails || (reported && !shows)
            &&& finished.next == numbered(numbered(next, first), second)
        }),
{
}

/// An answer that changed what is on show is published, and any other ends the round. The
/// worker goes by the clock it was given, or by the one it started with, and a suspend
/// makes it start over.
#[verifier::spinoff_prover]
#[verifier::rlimit(60)]
pub proof fn law_answers_are_published(
    worker: WorkerModel,
    next: u64,
    request: DecodeRequest,
    result: Option<FrameModel>,
    clock: Option<ClockSnapshot>,
    monotonic: u128,
    offset: Option<u128>,
    capacity: usize,
    reserved: bool,
)
    requires
        worker.stage == Stage::Decoding(request),
    ensures
        ({
            let suspended = worker.offset matches Some(previous) && (offset matches Some(offset)
                && offset > previous + 10_000_000);
            let finished = decode_finished(
                worker.playback,
                next,
                worker.reported,
                request,
                result,
                capacity,
                reserved,
                if clock is Some {
                    clock->0
                } else {
                    worker.initial_clock
                },
                monotonic,
                suspended,
            );
            let (after, action, report, following) = worker.finishing(
                next,
                result,
                clock,
                monotonic,
                offset,
                capacity,
                reserved,
            );
            &&& after.playback == finished.playback
            &&& action == WorkerAction::Publish <==> finished.publish
            &&& finished.publish ==> after.stage == Stage::ShowingImage
            &&& !finished.publish ==> action is Sleep && after.stage == Stage::Sleeping
            &&& report == finished.report
            &&& after.reported == finished.reported
            &&& after.offset == sampled(worker.offset, offset).0
            &&& following == finished.next
        }),
{
    law_suspends_show_in_the_offset(worker.offset, offset);
}

/// Every event is answered by its own part of the round: what a consumer took is
/// followed by what was still to do, the end of a pause by a look at the time, and a
/// consumer that is gone by the end.
pub proof fn law_a_round_runs_in_order(
    worker: WorkerModel,
    next: u64,
    moment: u128,
    capacity: usize,
    reserved: bool,
)
    ensures
        ({
            let taken = worked(worker, next, WorkerEvent::Published(true), capacity, reserved);
            &&& worker.stage == Stage::ShowingSchedule(moment) ==> (taken.0, taken.1)
                == worker.blending(moment)
            &&& worker.stage == Stage::ShowingBlend ==> (taken.0, taken.1) == worker.asking()
            &&& worker.stage == Stage::ShowingImage ==> (taken.0, taken.1) == worker.resting()
            &&& !taken.2
            &&& taken.3 == next
        }),
        ({
            let gone = worked(worker, next, WorkerEvent::Published(false), capacity, reserved);
            let cancelled = worked(worker, next, WorkerEvent::Cancelled, capacity, reserved);
            gone.1 == WorkerAction::Stop && cancelled.1 == WorkerAction::Stop && !gone.2
                && !cancelled.2
        }),
        ({
            let woke = worked(worker, next, WorkerEvent::Woke, capacity, reserved);
            &&& woke.1 == WorkerAction::SampleTime
            &&& woke.0.stage == Stage::Sampling
            &&& woke.0.playback == worker.playback
            &&& woke.0.offset == worker.offset
            &&& woke.0.reported == worker.reported
            &&& !woke.2
            &&& woke.3 == next
        }),
{
}

} // verus!
