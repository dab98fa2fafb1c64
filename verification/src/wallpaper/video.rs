//! Video wallpapers: frames, the blended loop, and when playback gives up.
//!
//! Moments and spans are nanoseconds.

use vstd::prelude::*;

use crate::dynamic_wallpaper::pixels::pack_rows;
use crate::text::{begins_with, same};

verus! {

/// How long before its end a video loops.
pub const LOOP_LEAD: u128 = 50_000_000;

/// How long the automatic decoder may take for its first frame.
pub const AUTOMATIC_STARTUP_TIMEOUT: u128 = 10_000_000_000;

/// How long the software decoder may take for its first frame.
pub const SOFTWARE_STARTUP_TIMEOUT: u128 = 60_000_000_000;

/// How long playback may go without a frame.
pub const FRAME_STALL_TIMEOUT: u128 = 10_000_000_000;

/// How long a loop may take to show its opening.
pub const SEEK_STALL_TIMEOUT: u128 = 10_000_000_000;

// ---------------------------------------------------------------------------
// Shared bytes
// ---------------------------------------------------------------------------

/// Bytes that are shared, not copied.
#[verifier::external_type_specification]
#[verifier::external_body]
pub struct ExBytes(bytes::Bytes);

/// What shared bytes hold.
pub uninterp spec fn contents(bytes: bytes::Bytes) -> Seq<u8>;

/// `Bytes::from` a vector: the same bytes, to be shared.
#[verifier::external_body]
fn share(bytes: Vec<u8>) -> (shared: bytes::Bytes)
    ensures
        contents(shared) == bytes@,
{
    bytes::Bytes::from(bytes)
}

/// `Bytes::clone`: the same bytes, shared once more.
#[verifier::external_body]
fn share_again(bytes: &bytes::Bytes) -> (shared: bytes::Bytes)
    ensures
        contents(shared) == contents(*bytes),
{
    bytes.clone()
}

/// `Bytes::as_ref`: the bytes themselves.
#[verifier::external_body]
fn read(bytes: &bytes::Bytes) -> (slice: &[u8])
    ensures
        slice@ == contents(*bytes),
{
    bytes.as_ref()
}

// ---------------------------------------------------------------------------
// Frames
// ---------------------------------------------------------------------------

/// The pixels of a decoded picture whose rows are `stride` apart, if it holds
/// them all.
pub open spec fn picture(source: Seq<u8>, width: u32, height: u32, stride: i32) -> Option<
    Seq<u8>,
> {
    if stride < 4 * width || source.len() < stride * height {
        None
    } else {
        Some(
            crate::dynamic_wallpaper::pixels::packed_rows(
                source,
                stride as int,
                4 * width,
                height as int,
            ),
        )
    }
}

/// Packs the rows of a decoded picture.
pub fn pack_rgba(source: &[u8], width: u32, height: u32, stride: i32) -> (packed: Option<
    bytes::Bytes,
>)
    ensures
        (match packed {
            Some(packed) => Some(contents(packed)),
            None => None,
        }) == picture(source@, width, height, stride),
{
    let length: usize = source.len();
    if (stride as i64) < width as i64 * 4 {
        return None;
    }
    assert(0 <= stride * height <= 0x7fff_ffff * 0xffff_ffff) by (nonlinear_arith)
        requires
            0 <= stride <= 0x7fff_ffff,
            0 <= height <= 0xffff_ffff,
    ;
    if (length as u64) < stride as u64 * height as u64 {
        return None;
    }
    let mut pixels: Vec<u8> = Vec::new();
    pack_rows(source, stride as usize, (width as i64 * 4) as usize, height, &mut pixels);
    Some(share(pixels))
}

/// A frame of a video.
#[derive(Debug)]
pub struct Frame {
    pub width: u32,
    pub height: u32,
    pub pixels: bytes::Bytes,
    /// When the frame is due, from the start of the video.
    pub pts: Option<u128>,
}

/// A frame by its contents.
#[verifier::ext_equal]
pub struct VideoFrame {
    pub width: u32,
    pub height: u32,
    pub pixels: Seq<u8>,
    pub pts: Option<u128>,
}

impl View for Frame {
    type V = VideoFrame;

    open spec fn view(&self) -> VideoFrame {
        VideoFrame {
            width: self.width,
            height: self.height,
            pixels: contents(self.pixels),
            pts: self.pts,
        }
    }
}

impl Frame {
    /// A frame of these pixels.
    pub fn new(width: u32, height: u32, pixels: Vec<u8>, pts: Option<u128>) -> (frame: Self)
        ensures
            frame@ == (VideoFrame { width, height, pixels: pixels@, pts }),
    {
        Frame { width, height, pixels: share(pixels), pts }
    }

    /// The pixels of the frame.
    pub fn bytes(&self) -> (pixels: &[u8])
        ensures
            pixels@ == self@.pixels,
    {
        read(&self.pixels)
    }

    fn again(&self) -> (frame: Self)
        ensures
            frame@ == self@,
    {
        Frame {
            width: self.width,
            height: self.height,
            pixels: share_again(&self.pixels),
            pts: self.pts,
        }
    }
}

/// A frame, if there is one.
pub open spec fn frame_of(frame: Option<Frame>) -> Option<VideoFrame> {
    match frame {
        Some(frame) => Some(frame@),
        None => None,
    }
}

/// Whether two frames can be blended.
pub open spec fn alike(left: VideoFrame, right: VideoFrame) -> bool {
    left.width == right.width && left.height == right.height && left.pixels.len()
        == right.pixels.len()
}

/// Whether two frames can be blended.
pub fn same_dimensions(left: &Frame, right: &Frame) -> (same: bool)
    ensures
        same == alike(left@, right@),
{
    left.width == right.width && left.height == right.height && read(&left.pixels).len() == read(
        &right.pixels,
    ).len()
}

/// The frame that blends the held one with the opening.
pub open spec fn blended_opening(
    held: VideoFrame,
    opening: VideoFrame,
    weight: int,
) -> VideoFrame {
    VideoFrame {
        pixels: crate::dynamic_wallpaper::playback::blended(held.pixels, opening.pixels, weight),
        ..opening
    }
}

/// Blends a held frame with the opening, `opening_weight` parts in 256 of the
/// opening.
pub fn blend(held: &Frame, opening: Frame, opening_weight: u16) -> (frame: Frame)
    requires
        alike(held@, opening@),
        opening_weight <= 256,
    ensures
        frame@ == blended_opening(held@, opening@, opening_weight as int),
{
    let from = read(&held.pixels);
    let to = read(&opening.pixels);
    let length: usize = to.len();
    let ghost whole = crate::dynamic_wallpaper::playback::blended(
        from@,
        to@,
        opening_weight as int,
    );
    let mut pixels: Vec<u8> = Vec::with_capacity(length);
    let mut index: usize = 0;
    while index < length
        invariant
            length == to@.len(),
            from@.len() == to@.len(),
            opening_weight <= 256,
            whole == crate::dynamic_wallpaper::playback::blended(
                from@,
                to@,
                opening_weight as int,
            ),
            index <= length,
            pixels@ =~= whole.take(index as int),
        decreases length - index,
    {
        pixels.push(
            crate::dynamic_wallpaper::playback::blend_channel(
                from[index],
                to[index],
                opening_weight,
            ),
        );
        index += 1;
    }
    assert(whole.take(length as int) =~= whole);
    Frame {
        width: opening.width,
        height: opening.height,
        pixels: share(pixels),
        pts: opening.pts,
    }
}

// ---------------------------------------------------------------------------
// State
// ---------------------------------------------------------------------------

/// The end of a video, held while its opening is blended in.
#[derive(Debug)]
pub struct LoopTransition {
    pub held: Frame,
    pub started_at: u128,
    pub duration: u64,
}

/// A transition by its contents.
#[verifier::ext_equal]
pub struct LoopModel {
    pub held: VideoFrame,
    pub started_at: u128,
    pub duration: u64,
}

impl View for LoopTransition {
    type V = LoopModel;

    open spec fn view(&self) -> LoopModel {
        LoopModel { held: self.held@, started_at: self.started_at, duration: self.duration }
    }
}

/// What the consumer has to look at.
#[derive(Debug)]
pub enum Update {
    Frame(Frame),
    Failed,
}

/// An update by its contents.
pub enum UpdateModel {
    Frame(VideoFrame),
    Failed,
}

impl View for Update {
    type V = UpdateModel;

    open spec fn view(&self) -> UpdateModel {
        match self {
            Update::Frame(frame) => UpdateModel::Frame(frame@),
            Update::Failed => UpdateModel::Failed,
        }
    }
}

/// What the decoder and the consumer share.
#[derive(Debug)]
pub struct Shared {
    pub pending: Option<Update>,
    pub last_frame: Option<Frame>,
    pub transition: Option<LoopTransition>,
    pub last_frame_at: Option<u128>,
    pub awaiting_opening_since: Option<u128>,
    pub failed: bool,
    pub loop_requested: bool,
    /// How often the consumer was told to look.
    pub sequence: u64,
}

/// What is shared, by its contents.
#[verifier::ext_equal]
pub struct SharedModel {
    pub pending: Option<UpdateModel>,
    pub last_frame: Option<VideoFrame>,
    pub transition: Option<LoopModel>,
    pub last_frame_at: Option<u128>,
    pub awaiting_opening_since: Option<u128>,
    pub failed: bool,
    pub loop_requested: bool,
    pub sequence: u64,
}

/// A transition, if there is one.
pub open spec fn transition_of(transition: Option<LoopTransition>) -> Option<LoopModel> {
    match transition {
        Some(transition) => Some(transition@),
        None => None,
    }
}

impl View for Shared {
    type V = SharedModel;

    open spec fn view(&self) -> SharedModel {
        SharedModel {
            pending: match self.pending {
                Some(update) => Some(update@),
                None => None,
            },
            last_frame: frame_of(self.last_frame),
            transition: transition_of(self.transition),
            last_frame_at: self.last_frame_at,
            awaiting_opening_since: self.awaiting_opening_since,
            failed: self.failed,
            loop_requested: self.loop_requested,
            sequence: self.sequence,
        }
    }
}

/// The number after a number.
pub open spec fn notified(sequence: u64) -> u64 {
    crate::dynamic_wallpaper::playback::following(sequence)
}

/// How far a transition is, in parts of 256, at a moment and for a frame.
pub open spec fn progress(transition: LoopModel, pts: Option<u128>, now: u128) -> int {
    let elapsed = match pts {
        Some(pts) => pts as int,
        None => crate::dynamic_wallpaper::playback::span(transition.started_at, now),
    };
    let duration = if transition.duration == 0 {
        1
    } else {
        transition.duration as int
    };
    let parts = elapsed * 256 / duration;
    if parts > 256 {
        256
    } else {
        parts
    }
}

/// How far a transition is, in parts of 256. A frame says for itself when it is
/// due; otherwise the clock decides.
pub fn transition_progress(transition: &LoopTransition, pts: Option<u128>, now: u128) -> (parts:
    u16)
    ensures
        parts == progress(transition@, pts, now),
        parts <= 256,
{
    let elapsed: u128 = match pts {
        Some(pts) => pts,
        None => now.saturating_sub(transition.started_at),
    };
    let duration: u128 = if transition.duration == 0 {
        1
    } else {
        transition.duration as u128
    };
    if elapsed >= duration {
        assert(elapsed as int * 256 / duration as int >= 256) by (nonlinear_arith)
            requires
                elapsed >= duration,
                duration > 0,
        ;
        return 256;
    }
    assert(0 <= elapsed as int * 256 / duration as int <= 256) by (nonlinear_arith)
        requires
            0 <= elapsed < duration,
            duration > 0,
    ;
    (elapsed * 256 / duration) as u16
}

/// The frame to show while a transition is on, and what is left of the
/// transition.
pub open spec fn faded(frame: VideoFrame, transition: Option<LoopModel>, now: u128) -> (
    VideoFrame,
    Option<LoopModel>,
) {
    match transition {
        Some(transition) => if progress(transition, frame.pts, now) < 256 && alike(
            transition.held,
            frame,
        ) {
            (
                blended_opening(
                    transition.held,
                    frame,
                    progress(transition, frame.pts, now),
                ),
                Some(transition),
            )
        } else {
            (frame, None)
        },
        None => (frame, None),
    }
}

/// The shared state after a frame was decoded. A transition that began while the
/// frame was blended is kept.
pub open spec fn published(
    shared: SharedModel,
    frame: VideoFrame,
    transition: Option<LoopModel>,
    now: u128,
) -> SharedModel {
    SharedModel {
        pending: Some(UpdateModel::Frame(frame)),
        last_frame: Some(frame),
        transition: if shared.transition is Some {
            shared.transition
        } else {
            transition
        },
        last_frame_at: Some(now),
        awaiting_opening_since: None,
        sequence: notified(shared.sequence),
        ..shared
    }
}

/// What to do with a decoded frame.
#[derive(Clone, Copy, Debug, PartialEq, Eq, Structural)]
pub enum LoopFrameAction {
    Publish,
    /// The frame is close to the end: show it, and ask for the loop.
    Request,
    Drop,
}

impl LoopFrameAction {
    /// Whether the frame is shown.
    pub fn shows(self) -> (shows: bool)
        ensures
            shows == (self != LoopFrameAction::Drop),
    {
        match self {
            LoopFrameAction::Publish | LoopFrameAction::Request => true,
            LoopFrameAction::Drop => false,
        }
    }

    /// Whether the loop is asked for, once it is known whether the frame was shown.
    pub fn asks(self, shown: bool) -> (asks: bool)
        ensures
            asks == (self == LoopFrameAction::Request && shown),
    {
        match self {
            LoopFrameAction::Request => shown,
            LoopFrameAction::Publish | LoopFrameAction::Drop => false,
        }
    }
}

/// What to do with a frame, and whether a loop is then asked for.
pub open spec fn loop_action(requested: bool, pts: Option<u128>, duration: u128) -> (
    LoopFrameAction,
    bool,
) {
    match pts {
        None => if requested {
            (LoopFrameAction::Drop, true)
        } else {
            (LoopFrameAction::Publish, false)
        },
        Some(pts) => if pts < duration - LOOP_LEAD {
            (LoopFrameAction::Publish, false)
        } else if requested {
            (LoopFrameAction::Drop, true)
        } else {
            (LoopFrameAction::Request, true)
        },
    }
}

/// How playback comes to a halt.
#[derive(Clone, Copy, Debug, PartialEq, Eq, Structural)]
pub enum Stall {
    Startup,
    Frame,
    Seek,
}

/// Whether a span since a moment is over.
pub open spec fn over(since: Option<u128>, timeout: u128, now: u128) -> bool {
    since matches Some(since) && crate::dynamic_wallpaper::playback::span(since, now) >= timeout
}

/// Whether playback came to a halt.
pub open spec fn stalled(
    shared: SharedModel,
    started_at: u128,
    startup_timeout: u128,
    now: u128,
) -> Option<Stall> {
    if over(shared.awaiting_opening_since, SEEK_STALL_TIMEOUT, now) {
        Some(Stall::Seek)
    } else if over(shared.last_frame_at, FRAME_STALL_TIMEOUT, now) {
        Some(Stall::Frame)
    } else if shared.last_frame_at is None && over(Some(started_at), startup_timeout, now) {
        Some(Stall::Startup)
    } else {
        None
    }
}

/// The shared state after playback failed for good.
pub open spec fn failed(shared: SharedModel) -> SharedModel {
    if shared.failed {
        shared
    } else {
        SharedModel {
            pending: Some(UpdateModel::Failed),
            last_frame: None,
            transition: None,
            last_frame_at: None,
            awaiting_opening_since: None,
            failed: true,
            sequence: notified(shared.sequence),
            ..shared
        }
    }
}

impl Shared {
    pub fn new() -> (shared: Self)
        ensures
            shared@ == (SharedModel {
                pending: None,
                last_frame: None,
                transition: None,
                last_frame_at: None,
                awaiting_opening_since: None,
                failed: false,
                loop_requested: false,
                sequence: 0,
            }),
    {
        Shared {
            pending: None,
            last_frame: None,
            transition: None,
            last_frame_at: None,
            awaiting_opening_since: None,
            failed: false,
            loop_requested: false,
            sequence: 0,
        }
    }

    /// Starts an attempt to play the file: the end of the one before may have left a
    /// loop asked for that nobody answers any more.
    pub fn begin_attempt(&mut self)
        ensures
            final(self)@ == (SharedModel { loop_requested: false, ..old(self)@ }),
    {
        self.loop_requested = false;
    }

    /// Takes the transition a frame is to be blended with. After a failure no
    /// frame is published.
    pub fn begin_publish(&mut self) -> (transition: Option<Option<LoopTransition>>)
        ensures
            match transition {
                Some(transition) => {
                    &&& !old(self)@.failed
                    &&& transition_of(transition) == old(self)@.transition
                    &&& final(self)@ == (SharedModel { transition: None, ..old(self)@ })
                },
                None => old(self)@.failed && final(self)@ == old(self)@,
            },
    {
        if self.failed {
            return None;
        }
        Some(self.transition.take())
    }

    /// Shows a frame that was blended, unless playback failed meanwhile.
    pub fn finish_publish(
        &mut self,
        frame: Frame,
        transition: Option<LoopTransition>,
        now: u128,
    ) -> (shown: bool)
        ensures
            shown == !old(self)@.failed,
            final(self)@ == if shown {
                published(old(self)@, frame@, transition_of(transition), now)
            } else {
                old(self)@
            },
    {
        if self.failed {
            return false;
        }
        if self.transition.is_none() {
            self.transition = transition;
        }
        self.last_frame = Some(frame.again());
        self.last_frame_at = Some(now);
        self.awaiting_opening_since = None;
        self.pending = Some(Update::Frame(frame));
        self.notify();
        true
    }

    /// Shows a decoded frame, blended with the end of the video while it loops.
    pub fn publish_frame(&mut self, frame: Frame, now: u128) -> (shown: bool)
        ensures
            shown == !old(self)@.failed,
            final(self)@ == if shown {
                published(
                    SharedModel { transition: None, ..old(self)@ },
                    faded(frame@, old(self)@.transition, now).0,
                    faded(frame@, old(self)@.transition, now).1,
                    now,
                )
            } else {
                old(self)@
            },
    {
        match self.begin_publish() {
            Some(transition) => {
                let (frame, transition) = fade(frame, transition, now);
                self.finish_publish(frame, transition, now)
            },
            None => false,
        }
    }

    /// Decides what to do with a decoded frame.
    pub fn loop_frame_action(&mut self, pts: Option<u128>, duration: u128) -> (action:
        LoopFrameAction)
        ensures
            action == loop_action(old(self)@.loop_requested, pts, duration).0,
            final(self)@ == (SharedModel {
                loop_requested: loop_action(old(self)@.loop_requested, pts, duration).1,
                ..old(self)@
            }),
    {
        match pts {
            None => if self.loop_requested {
                LoopFrameAction::Drop
            } else {
                LoopFrameAction::Publish
            },
            Some(pts) => {
                if pts < duration.saturating_sub(LOOP_LEAD) {
                    self.loop_requested = false;
                    return LoopFrameAction::Publish;
                }
                if self.loop_requested {
                    LoopFrameAction::Drop
                } else {
                    self.loop_requested = true;
                    LoopFrameAction::Request
                }
            },
        }
    }

    /// Holds the last frame while the video starts over.
    pub fn begin_loop_at(&mut self, crossfade: u64, now: u128)
        ensures
            final(self)@ == (SharedModel {
                transition: match old(self)@.last_frame {
                    Some(held) => Some(
                        LoopModel { held, started_at: now, duration: crossfade },
                    ),
                    None => None,
                },
                awaiting_opening_since: Some(now),
                ..old(self)@
            }),
    {
        self.transition = match &self.last_frame {
            Some(frame) => Some(
                LoopTransition { held: frame.again(), started_at: now, duration: crossfade },
            ),
            None => None,
        };
        self.awaiting_opening_since = Some(now);
    }

    /// Whether playback came to a halt.
    pub fn playback_stall(&self, started_at: u128, startup_timeout: u128, now: u128) -> (stall:
        Option<Stall>)
        ensures
            stall == stalled(self@, started_at, startup_timeout, now),
    {
        if is_over(self.awaiting_opening_since, SEEK_STALL_TIMEOUT, now) {
            return Some(Stall::Seek);
        }
        if is_over(self.last_frame_at, FRAME_STALL_TIMEOUT, now) {
            return Some(Stall::Frame);
        }
        if self.last_frame_at.is_none() && is_over(Some(started_at), startup_timeout, now) {
            return Some(Stall::Startup);
        }
        None
    }

    /// Notes that playback failed, and says whether to report it.
    pub fn fail_once(&mut self) -> (report: bool)
        ensures
            report == !old(self)@.failed,
            final(self)@ == failed(old(self)@),
    {
        if self.failed {
            return false;
        }
        self.failed = true;
        self.pending = Some(Update::Failed);
        self.last_frame = None;
        self.transition = None;
        self.last_frame_at = None;
        self.awaiting_opening_since = None;
        self.notify();
        true
    }

    /// Takes what the consumer has not seen yet.
    pub fn take_latest(&mut self) -> (update: Option<Update>)
        ensures
            (match update {
                Some(update) => Some(update@),
                None => None,
            }) == old(self)@.pending,
            final(self)@ == (SharedModel { pending: None, ..old(self)@ }),
    {
        self.pending.take()
    }

    fn notify(&mut self)
        ensures
            final(self)@ == (SharedModel {
                sequence: notified(old(self)@.sequence),
                ..old(self)@
            }),
    {
        self.sequence = self.sequence.wrapping_add(1);
    }
}

fn is_over(since: Option<u128>, timeout: u128, now: u128) -> (answer: bool)
    ensures
        answer == over(since, timeout, now),
{
    match since {
        Some(since) => now.saturating_sub(since) >= timeout,
        None => false,
    }
}

/// Blends a frame with the held one while a transition is on.
pub fn fade(frame: Frame, transition: Option<LoopTransition>, now: u128) -> (result: (
    Frame,
    Option<LoopTransition>,
))
    ensures
        (result.0@, transition_of(result.1)) == faded(frame@, transition_of(transition), now),
{
    match transition {
        Some(transition) => {
            let progress: u16 = transition_progress(&transition, frame.pts, now);
            if progress < 256 && same_dimensions(&transition.held, &frame) {
                let frame = blend(&transition.held, frame, progress);
                (frame, Some(transition))
            } else {
                (frame, None)
            }
        },
        None => (frame, None),
    }
}

// ---------------------------------------------------------------------------
// Attempts
// ---------------------------------------------------------------------------

/// How a video is decoded.
#[derive(Clone, Copy, Debug, PartialEq, Eq, Structural)]
pub enum DecoderMode {
    Automatic,
    Software,
}

impl DecoderMode {
    /// How long a decoder may take for its first frame.
    pub fn startup_timeout(self) -> (timeout: u128)
        ensures
            timeout == match self {
                DecoderMode::Automatic => AUTOMATIC_STARTUP_TIMEOUT,
                DecoderMode::Software => SOFTWARE_STARTUP_TIMEOUT,
            },
    {
        match self {
            DecoderMode::Automatic => AUTOMATIC_STARTUP_TIMEOUT,
            DecoderMode::Software => SOFTWARE_STARTUP_TIMEOUT,
        }
    }

    /// The name of the element that decodes.
    pub open spec fn decoder(self) -> Seq<char> {
        match self {
            DecoderMode::Automatic => "decodebin"@,
            DecoderMode::Software => "avdec_h265"@,
        }
    }

    /// The element that decodes.
    pub fn element(self) -> (name: &'static str)
        ensures
            name@ == self.decoder(),
    {
        match self {
            DecoderMode::Automatic => "decodebin",
            DecoderMode::Software => "avdec_h265",
        }
    }

    /// Whether the decoder has its output from the start. The automatic one has it
    /// once it knows what it decodes.
    pub fn has_output_at_once(self) -> (at_once: bool)
        ensures
            at_once == (self == DecoderMode::Software),
    {
        match self {
            DecoderMode::Automatic => false,
            DecoderMode::Software => true,
        }
    }
}

/// How many frames a second are shown.
pub const OUTPUT_FRAMES_PER_SECOND: i32 = 30;

/// The elements of a pipeline, from the file to the frames that are shown.
pub open spec fn elements_of(mode: DecoderMode) -> Seq<Seq<char>> {
    seq![
        "fdsrc"@,
        "qtdemux"@,
        "h265parse"@,
        mode.decoder(),
        "videoconvert"@,
        "videorate"@,
    ]
}

/// The elements of a pipeline, from the file to the frames that are shown.
pub fn pipeline_elements(mode: DecoderMode) -> (names: Vec<&'static str>)
    ensures
        names@.map_values(|name: &'static str| name@) == elements_of(mode),
{
    let mut names: Vec<&'static str> = Vec::new();
    names.push("fdsrc");
    names.push("qtdemux");
    names.push("h265parse");
    names.push(mode.element());
    names.push("videoconvert");
    names.push("videorate");
    assert(names@.map_values(|name: &'static str| name@) =~= elements_of(mode));
    names
}

/// An input of a pipeline that waits for an output to appear.
#[derive(Clone, Copy, Debug, PartialEq, Eq, Structural)]
pub enum Inlet {
    /// Takes the compressed video out of the container.
    Parser,
    /// Takes the decoded pictures.
    Converter,
}

/// Whether an input takes an output that appeared: it has none yet, and the output
/// carries what it waits for.
pub open spec fn pad_taken(inlet: Inlet, linked: bool, media: Option<Seq<char>>) -> bool {
    !linked && (media matches Some(media) && match inlet {
        Inlet::Parser => media == "video/x-h265"@,
        Inlet::Converter => "video/x-raw"@.is_prefix_of(media),
    })
}

/// Whether an input takes an output that appeared, by the media type it carries.
pub fn takes_pad(inlet: Inlet, linked: bool, media: Option<&str>) -> (takes: bool)
    ensures
        takes == pad_taken(
            inlet,
            linked,
            match media {
                Some(media) => Some(media@),
                None => None,
            },
        ),
{
    if linked {
        return false;
    }
    match (inlet, media) {
        (Inlet::Parser, Some(media)) => same(media, "video/x-h265"),
        (Inlet::Converter, Some(media)) => begins_with(media, "video/x-raw"),
        (_, None) => false,
    }
}

/// What came of a sample that the decoder handed out.
#[derive(Clone, Copy, Debug, PartialEq, Eq, Structural)]
pub enum Sampled {
    /// It holds no frame that can be shown.
    Undecoded,
    /// It was dealt with as the loop wants it. `shown` says whether it was
    /// published, and `asked` whether the loop could be asked for.
    Taken { action: LoopFrameAction, shown: bool, asked: bool },
}

/// Whether a sample leaves the pipeline broken: it could not be decoded, or the
/// loop that its frame calls for could not be asked for.
pub fn breaks_pipeline(sampled: Sampled) -> (broken: bool)
    ensures
        broken == match sampled {
            Sampled::Undecoded => true,
            Sampled::Taken { action, shown, asked } => action == LoopFrameAction::Request && shown
                && !asked,
        },
{
    match sampled {
        Sampled::Undecoded => true,
        Sampled::Taken { action, shown, asked } => match action {
            LoopFrameAction::Request => shown && !asked,
            _ => false,
        },
    }
}

/// Why an attempt to play a video failed.
#[derive(Clone, Copy, Debug, PartialEq, Eq, Structural)]
pub enum Failure {
    Rewind,
    Build,
    Start,
    Frames,
    Stalled(Stall),
    LoopSeek,
    End,
    Stream,
}

impl Failure {
    pub open spec fn text(self) -> Seq<char> {
        match self {
            Failure::Rewind => "wallpaper file could not be rewound"@,
            Failure::Build => "wallpaper decode pipeline could not be built"@,
            Failure::Start => "wallpaper decode pipeline did not start"@,
            Failure::Frames => "wallpaper frame decoding failed"@,
            Failure::Stalled(Stall::Startup) =>
                "wallpaper did not produce its first frame in time"@,
            Failure::Stalled(Stall::Frame) => "wallpaper playback stopped producing frames"@,
            Failure::Stalled(Stall::Seek) => "wallpaper loop did not resume after seeking"@,
            Failure::LoopSeek => "wallpaper loop seek failed"@,
            Failure::End => "wallpaper reached its end before looping"@,
            Failure::Stream => "wallpaper stream failed"@,
        }
    }

    /// The failure in words.
    pub fn message(self) -> (text: &'static str)
        ensures
            text@ == self.text(),
    {
        match self {
            Failure::Rewind => "wallpaper file could not be rewound",
            Failure::Build => "wallpaper decode pipeline could not be built",
            Failure::Start => "wallpaper decode pipeline did not start",
            Failure::Frames => "wallpaper frame decoding failed",
            Failure::Stalled(Stall::Startup) =>
                "wallpaper did not produce its first frame in time",
            Failure::Stalled(Stall::Frame) => "wallpaper playback stopped producing frames",
            Failure::Stalled(Stall::Seek) => "wallpaper loop did not resume after seeking",
            Failure::LoopSeek => "wallpaper loop seek failed",
            Failure::End => "wallpaper reached its end before looping",
            Failure::Stream => "wallpaper stream failed",
        }
    }
}

/// How an attempt to play a video ended.
#[derive(Clone, Copy, Debug, PartialEq, Eq, Structural)]
pub enum PlaybackOutcome {
    Stopped,
    Failed(Failure),
}

/// Whether the software decoder gets its turn.
pub fn should_retry_with_software(mode: DecoderMode, has_frame: bool) -> (retry: bool)
    ensures
        retry == (mode == DecoderMode::Automatic && !has_frame),
{
    mode == DecoderMode::Automatic && !has_frame
}

/// What follows an attempt.
#[derive(Clone, Copy, Debug, PartialEq, Eq, Structural)]
pub enum AfterAttempt {
    Return,
    Retry(DecoderMode),
    Fail(Failure),
}

/// What follows an attempt.
pub open spec fn attempted(
    mode: DecoderMode,
    outcome: PlaybackOutcome,
    stopping: bool,
    has_frame: bool,
) -> AfterAttempt {
    match outcome {
        PlaybackOutcome::Stopped => AfterAttempt::Return,
        PlaybackOutcome::Failed(failure) => if stopping {
            AfterAttempt::Return
        } else if mode == DecoderMode::Automatic && !has_frame {
            AfterAttempt::Retry(DecoderMode::Software)
        } else {
            AfterAttempt::Fail(failure)
        },
    }
}

/// Decides what follows an attempt: another one in software where nothing was
/// ever shown, and a failure for good otherwise.
pub fn after_attempt(
    mode: DecoderMode,
    outcome: PlaybackOutcome,
    stopping: bool,
    has_frame: bool,
) -> (next: AfterAttempt)
    ensures
        next == attempted(mode, outcome, stopping, has_frame),
{
    match outcome {
        PlaybackOutcome::Stopped => AfterAttempt::Return,
        PlaybackOutcome::Failed(failure) => if stopping {
            AfterAttempt::Return
        } else if should_retry_with_software(mode, has_frame) {
            AfterAttempt::Retry(DecoderMode::Software)
        } else {
            AfterAttempt::Fail(failure)
        },
    }
}

/// What the monitor of a playing video sees before it waits for a message.
pub open spec fn monitored(
    shared: SharedModel,
    faulted: bool,
    mode: DecoderMode,
    started_at: u128,
    now: u128,
    stopping: bool,
) -> Option<PlaybackOutcome> {
    if stopping || shared.failed {
        Some(PlaybackOutcome::Stopped)
    } else if faulted {
        Some(PlaybackOutcome::Failed(Failure::Frames))
    } else {
        match stalled(
            shared,
            started_at,
            match mode {
                DecoderMode::Automatic => AUTOMATIC_STARTUP_TIMEOUT,
                DecoderMode::Software => SOFTWARE_STARTUP_TIMEOUT,
            },
            now,
        ) {
            Some(stall) => Some(PlaybackOutcome::Failed(Failure::Stalled(stall))),
            None => None,
        }
    }
}

/// Decides whether a playing video goes on, before the monitor waits for a
/// message.
pub fn monitor(
    shared: &Shared,
    faulted: bool,
    mode: DecoderMode,
    started_at: u128,
    now: u128,
    stopping: bool,
) -> (outcome: Option<PlaybackOutcome>)
    ensures
        outcome == monitored(shared@, faulted, mode, started_at, now, stopping),
{
    if stopping || shared.failed {
        return Some(PlaybackOutcome::Stopped);
    }
    if faulted {
        return Some(PlaybackOutcome::Failed(Failure::Frames));
    }
    match shared.playback_stall(started_at, mode.startup_timeout(), now) {
        Some(stall) => Some(PlaybackOutcome::Failed(Failure::Stalled(stall))),
        None => None,
    }
}

/// A message of a playing video.
#[derive(Clone, Copy, Debug, PartialEq, Eq, Structural)]
pub enum Message {
    /// The video is close to its end.
    Loop,
    /// Whether the loop that was asked for could be started.
    Looped(bool),
    End,
    Error,
    Other,
}

/// What follows a message: an end, or whether to start the loop.
#[derive(Clone, Copy, Debug, PartialEq, Eq, Structural)]
pub enum AfterMessage {
    Continue,
    StartLoop,
    Finish(PlaybackOutcome),
}

/// What follows a message.
pub open spec fn answered(message: Message) -> AfterMessage {
    match message {
        Message::Loop => AfterMessage::StartLoop,
        Message::Looped(true) => AfterMessage::Continue,
        Message::Looped(false) => AfterMessage::Finish(
            PlaybackOutcome::Failed(Failure::LoopSeek),
        ),
        Message::End => AfterMessage::Finish(PlaybackOutcome::Failed(Failure::End)),
        Message::Error => AfterMessage::Finish(PlaybackOutcome::Failed(Failure::Stream)),
        Message::Other => AfterMessage::Continue,
    }
}

/// Decides what follows a message. Where the loop is to start, the last frame is
/// held from now on.
pub fn take_message(shared: &mut Shared, message: Message, crossfade: u64, now: u128) -> (next:
    AfterMessage)
    ensures
        next == answered(message),
        final(shared)@ == if message == Message::Loop {
            SharedModel {
                transition: match old(shared)@.last_frame {
                    Some(held) => Some(LoopModel { held, started_at: now, duration: crossfade }),
                    None => None,
                },
                awaiting_opening_since: Some(now),
                ..old(shared)@
            }
        } else {
            old(shared)@
        },
{
    match message {
        Message::Loop => {
            shared.begin_loop_at(crossfade, now);
            AfterMessage::StartLoop
        },
        Message::Looped(true) => AfterMessage::Continue,
        Message::Looped(false) => AfterMessage::Finish(
            PlaybackOutcome::Failed(Failure::LoopSeek),
        ),
        Message::End => AfterMessage::Finish(PlaybackOutcome::Failed(Failure::End)),
        Message::Error => AfterMessage::Finish(PlaybackOutcome::Failed(Failure::Stream)),
        Message::Other => AfterMessage::Continue,
    }
}

// ---------------------------------------------------------------------------
// Laws
// ---------------------------------------------------------------------------

/// Near the end of a video the loop is asked for exactly once, and nothing is
/// shown until the opening comes.
pub proof fn law_a_loop_is_requested_once(pts: u128, later: u128, duration: u128)
    requires
        pts >= duration - LOOP_LEAD,
        later >= duration - LOOP_LEAD,
    ensures
        loop_action(false, Some(pts), duration) == (LoopFrameAction::Request, true),
        loop_action(true, Some(later), duration) == (LoopFrameAction::Drop, true),
        loop_action(true, None, duration) == (LoopFrameAction::Drop, true),
        0 < duration - LOOP_LEAD ==> loop_action(true, Some(0), duration) == (
            LoopFrameAction::Publish,
            false,
        ),
{
}

/// After a failure nothing is shown any more, and the failure is reported once.
pub proof fn law_failures_are_final(shared: SharedModel)
    ensures
        failed(shared).failed,
        failed(failed(shared)) == failed(shared),
        !shared.failed ==> failed(shared).pending == Some(UpdateModel::Failed),
{
}

/// The loop starts from the held frame and ends with the opening alone.
pub proof fn law_loops_blend_from_the_held_frame(
    held: VideoFrame,
    opening: VideoFrame,
    started_at: u128,
    duration: u64,
    now: u128,
)
    requires
        alike(held, opening),
        opening.pts matches Some(pts) && pts == 0,
        duration > 0,
    ensures
        faded(opening, Some(LoopModel { held, started_at, duration }), now).0.pixels
            == held.pixels,
        faded(
            VideoFrame { pts: Some(duration as u128), ..opening },
            Some(LoopModel { held, started_at, duration }),
            now,
        ) == (VideoFrame { pts: Some(duration as u128), ..opening }, None::<LoopModel>),
{
    crate::dynamic_wallpaper::playback::law_dissolves_lead_from_one_image_to_the_other(
        held.pixels,
        opening.pixels,
    );
    assert(0int * 256 / duration as int == 0) by (nonlinear_arith)
        requires
            duration > 0,
    ;
    assert(duration as int * 256 / duration as int == 256) by (nonlinear_arith)
        requires
            duration > 0,
    ;
}

/// A software decoder is tried at most once, and only where nothing was shown.
pub proof fn law_software_is_the_last_resort(
    outcome: PlaybackOutcome,
    stopping: bool,
    has_frame: bool,
)
    ensures
        !(attempted(DecoderMode::Software, outcome, stopping, has_frame) is Retry),
        has_frame ==> !(attempted(DecoderMode::Automatic, outcome, stopping, has_frame) is Retry),
{
}

/// A packed picture holds every byte of the decoded one at its row and column, and
/// nothing else; there is one exactly where the rows are long enough and all there.
pub proof fn law_pictures_keep_rows_and_columns(
    source: Seq<u8>,
    width: u32,
    height: u32,
    stride: i32,
    row: int,
    column: int,
)
    requires
        0 <= row < height,
        0 <= column < 4 * width,
    ensures
        picture(source, width, height, stride) is Some <==> 4 * width <= stride && stride * height
            <= source.len(),
        picture(source, width, height, stride) matches Some(packed) ==> {
            &&& packed.len() == 4 * width * height
            &&& packed[4 * width * row + column] == source[row * stride + column]
        },
{
    if 4 * width <= stride && stride * height <= source.len() {
        crate::dynamic_wallpaper::pixels::law_packing_keeps_rows_and_columns(
            source,
            stride as int,
            4 * width,
            height as int,
            row,
            column,
        );
    }
}

/// A loop is as far as the time that went by: over once its duration has passed, and
/// before that the whole part of 256 times the share that passed. A frame that says
/// when it is due goes by that, any other by the clock, and a loop without duration
/// is over after a nanosecond.
pub proof fn law_loops_progress_with_time(transition: LoopModel, elapsed: u128, now: u128)
    ensures
        ({
            let duration = if transition.duration == 0 {
                1
            } else {
                transition.duration as int
            };
            let parts = progress(transition, Some(elapsed), now);
            &&& elapsed >= duration <==> parts == 256
            &&& elapsed < duration ==> 0 <= parts && parts * duration <= elapsed * 256 < (parts + 1)
                * duration
            &&& (transition.started_at + elapsed == now ==> progress(transition, None, now)
                == parts)
            &&& (now <= transition.started_at ==> progress(transition, None, now) == 0)
        }),
{
    let duration = if transition.duration == 0 {
        1
    } else {
        transition.duration as int
    };
    let parts = elapsed as int * 256 / duration;
    assert(parts * duration <= elapsed * 256 < (parts + 1) * duration) by (nonlinear_arith)
        requires
            parts == elapsed as int * 256 / duration,
            duration > 0,
    ;
    assert(elapsed >= duration ==> parts >= 256) by (nonlinear_arith)
        requires
            elapsed as int * 256 < (parts + 1) * duration,
            duration > 0,
    ;
    assert(elapsed < duration ==> 0 <= parts < 256) by (nonlinear_arith)
        requires
            parts * duration <= elapsed as int * 256 < (parts + 1) * duration,
            duration > 0,
            elapsed >= 0,
    ;
    assert(0int * 256 / duration == 0) by (nonlinear_arith)
        requires
            duration > 0,
    ;
}

/// While a loop lasts, a frame of the same size is mixed with the held one channel by
/// channel, by how far the loop is; it stays due when it was, and the loop goes on.
/// Any other frame is shown as it is, and ends the loop.
pub proof fn law_frames_of_a_loop_are_mixed(
    frame: VideoFrame,
    transition: LoopModel,
    now: u128,
    index: int,
)
    requires
        0 <= index < frame.pixels.len(),
    ensures
        ({
            let weight = progress(transition, frame.pts, now);
            let shown = faded(frame, Some(transition), now).0;
            let mixed = weight < 256 && transition.held.width == frame.width
                && transition.held.height == frame.height && transition.held.pixels.len()
                == frame.pixels.len();
            &&& mixed ==> {
                &&& shown.width == frame.width
                &&& shown.height == frame.height
                &&& shown.pts == frame.pts
                &&& shown.pixels.len() == frame.pixels.len()
                &&& -128 <= 256 * shown.pixels[index] - (transition.held.pixels[index] * (256
                    - weight) + frame.pixels[index] * weight) <= 128
                &&& faded(frame, Some(transition), now).1 == Some(transition)
            }
            &&& !mixed ==> faded(frame, Some(transition), now) == (frame, None::<LoopModel>)
            &&& faded(frame, None, now) == (frame, None::<LoopModel>)
        }),
{
    let weight = progress(transition, frame.pts, now);
    let elapsed = match frame.pts {
        Some(pts) => pts as int,
        None => crate::dynamic_wallpaper::playback::span(transition.started_at, now),
    };
    let duration = if transition.duration == 0 {
        1
    } else {
        transition.duration as int
    };
    assert(elapsed * 256 / duration >= 0) by (nonlinear_arith)
        requires
            elapsed >= 0,
            duration > 0,
    ;
    if alike(transition.held, frame) {
        crate::dynamic_wallpaper::playback::law_frames_are_blended_channel_by_channel(
            transition.held.pixels,
            frame.pixels,
            weight,
            index,
        );
    }
}

/// A frame that is shown is what the consumer gets, what the next loop holds, and what
/// the opening that was waited for; the consumer is told once more. A loop that began
/// meanwhile goes on in place of the one the frame belonged to.
pub proof fn law_published_frames_reach_the_consumer(
    shared: SharedModel,
    frame: VideoFrame,
    transition: Option<LoopModel>,
    now: u128,
)
    ensures
        ({
            let after = published(shared, frame, transition, now);
            &&& after.pending == Some(UpdateModel::Frame(frame))
            &&& after.last_frame == Some(frame)
            &&& after.last_frame_at == Some(now)
            &&& after.awaiting_opening_since is None
            &&& shared.transition is None ==> after.transition == transition
            &&& shared.transition is Some ==> after.transition == shared.transition
            &&& after.failed == shared.failed
            &&& after.loop_requested == shared.loop_requested
            &&& after.sequence != shared.sequence
            &&& shared.sequence < u64::MAX ==> after.sequence == shared.sequence + 1
        }),
{
}

/// After a failure the consumer has the failure to look at and is told so, and neither
/// a frame nor a loop is left to show.
pub proof fn law_a_failure_leaves_nothing_to_show(shared: SharedModel)
    requires
        !shared.failed,
    ensures
        ({
            let after = failed(shared);
            &&& after.failed
            &&& after.pending == Some(UpdateModel::Failed)
            &&& after.last_frame is None
            &&& after.transition is None
            &&& after.last_frame_at is None
            &&& after.awaiting_opening_since is None
            &&& after.loop_requested == shared.loop_requested
            &&& after.sequence != shared.sequence
            &&& shared.sequence < u64::MAX ==> after.sequence == shared.sequence + 1
        }),
{
}

/// A frame is shown unless a loop was asked for and it is not known to be of the
/// opening; it asks for the loop where it is due in the last fifty milliseconds and
/// none was asked for yet. A frame known to be of the opening answers the loop.
pub proof fn law_the_last_moments_of_a_video_ask_for_the_loop(
    requested: bool,
    pts: Option<u128>,
    duration: u128,
)
    ensures
        ({
            let (action, after) = loop_action(requested, pts, duration);
            let early = pts matches Some(pts) && pts + 50_000_000 < duration;
            let late = pts matches Some(pts) && pts + 50_000_000 >= duration;
            &&& action == LoopFrameAction::Drop <==> requested && !early
            &&& action == LoopFrameAction::Request <==> late && !requested
            &&& early ==> !after
            &&& late ==> after
            &&& pts is None ==> after == requested
        }),
{
}

/// Playback came to a halt where an opening was waited for or no frame came for ten
/// seconds, or where the first frame took longer than the decoder may take; the loop
/// is named before the frames.
pub proof fn law_playback_halts_when_nothing_comes(
    shared: SharedModel,
    started_at: u128,
    startup_timeout: u128,
    now: u128,
)
    ensures
        ({
            let opening = shared.awaiting_opening_since matches Some(since) && now - since
                >= 10_000_000_000;
            let frame = shared.last_frame_at matches Some(at) && now - at >= 10_000_000_000;
            let startup = shared.last_frame_at is None && started_at + startup_timeout <= now
                && started_at <= now;
            let stall = stalled(shared, started_at, startup_timeout, now);
            &&& stall == Some(Stall::Seek) <==> opening
            &&& stall == Some(Stall::Frame) <==> frame && !opening
            &&& startup && !opening ==> stall == Some(Stall::Startup)
            &&& stall == Some(Stall::Startup) && startup_timeout > 0 ==> startup && !opening
            &&& stall is None && startup_timeout > 0 <==> !opening && !frame && !startup
                && startup_timeout > 0
        }),
{
}

/// A video goes on while nobody stops it, it has not failed, its frames decode and it
/// has not come to a halt; the automatic decoder has ten seconds for its first frame
/// and the software decoder a minute. Being stopped comes before every failure.
pub proof fn law_a_video_plays_until_something_ends_it(
    shared: SharedModel,
    faulted: bool,
    mode: DecoderMode,
    started_at: u128,
    now: u128,
    stopping: bool,
)
    requires
        started_at <= now,
    ensures
        ({
            let outcome = monitored(shared, faulted, mode, started_at, now, stopping);
            let limit = if mode == DecoderMode::Automatic {
                10_000_000_000int
            } else {
                60_000_000_000
            };
            let opening = shared.awaiting_opening_since matches Some(since) && now - since
                >= 10_000_000_000;
            let late = shared.last_frame_at is None && now - started_at >= limit;
            &&& outcome == Some(PlaybackOutcome::Stopped) <==> stopping || shared.failed
            &&& outcome == Some(PlaybackOutcome::Failed(Failure::Frames)) <==> faulted && !stopping
                && !shared.failed
            &&& outcome == Some(PlaybackOutcome::Failed(Failure::Stalled(Stall::Seek))) <==> opening
                && !faulted && !stopping && !shared.failed
            &&& outcome == Some(PlaybackOutcome::Failed(Failure::Stalled(Stall::Startup))) <==> late
                && !opening && !faulted && !stopping && !shared.failed
            &&& outcome is None ==> (shared.last_frame_at matches Some(at) ==> now - at
                < 10_000_000_000)
            &&& (shared.last_frame_at matches Some(at) && now - at >= 10_000_000_000) && !opening
                && !faulted && !stopping && !shared.failed ==> outcome == Some(
                PlaybackOutcome::Failed(Failure::Stalled(Stall::Frame)),
            )
        }),
{
}

/// A failed attempt counts only while nobody stops playback. It is then repeated in
/// software where the automatic decoder showed nothing, and reported as it failed
/// otherwise.
pub proof fn law_failed_attempts_are_repeated_or_reported(
    mode: DecoderMode,
    failure: Failure,
    stopping: bool,
    has_frame: bool,
)
    ensures
        attempted(mode, PlaybackOutcome::Stopped, stopping, has_frame) == AfterAttempt::Return,
        ({
            let next = attempted(mode, PlaybackOutcome::Failed(failure), stopping, has_frame);
            &&& next == AfterAttempt::Return <==> stopping
            &&& next == AfterAttempt::Retry(DecoderMode::Software) <==> !stopping && !has_frame
                && mode == DecoderMode::Automatic
            &&& next == AfterAttempt::Fail(failure) <==> !stopping && (has_frame || mode
                == DecoderMode::Software)
        }),
{
}

/// The loop starts where the video asks for it, and playback ends where a loop could
/// not be started, the video ran out or its stream broke; nothing else ends it.
pub proof fn law_messages_end_playback_for_a_reason(message: Message)
    ensures
        answered(message) == AfterMessage::StartLoop <==> message == Message::Loop,
        answered(message) is Finish <==> message == Message::Looped(false) || message
            == Message::End || message == Message::Error,
        answered(Message::Looped(false)) == AfterMessage::Finish(
            PlaybackOutcome::Failed(Failure::LoopSeek),
        ),
        answered(Message::End) == AfterMessage::Finish(PlaybackOutcome::Failed(Failure::End)),
        answered(Message::Error) == AfterMessage::Finish(PlaybackOutcome::Failed(Failure::Stream)),
{
}

/// An input takes one output, and only one that carries what it waits for: compressed
/// video for the parser, decoded pictures of any kind for the converter.
pub proof fn law_inputs_take_what_they_wait_for(
    linked: bool,
    media: Seq<char>,
    rest: Seq<char>,
)
    ensures
        !pad_taken(Inlet::Parser, true, Some(media)),
        !pad_taken(Inlet::Converter, true, Some(media)),
        !pad_taken(Inlet::Parser, linked, None),
        !pad_taken(Inlet::Converter, linked, None),
        pad_taken(Inlet::Parser, false, Some(media)) <==> media == "video/x-h265"@,
        pad_taken(Inlet::Converter, false, Some("video/x-raw"@ + rest)),
        pad_taken(Inlet::Converter, false, Some(media)) ==> media == "video/x-raw"@ + media.skip(
            "video/x-raw"@.len() as int,
        ),
{
    assert("video/x-raw"@.is_prefix_of("video/x-raw"@ + rest)) by {
        assert("video/x-raw"@ =~= ("video/x-raw"@ + rest).subrange(
            0,
            "video/x-raw"@.len() as int,
        ));
    }
    if "video/x-raw"@.is_prefix_of(media) {
        assert(media =~= "video/x-raw"@ + media.skip("video/x-raw"@.len() as int));
    }
}

/// A pipeline reads the file, takes it apart, parses, decodes, converts and paces it, in this
/// order, and its decoder alone depends on how it decodes.
pub proof fn law_pipelines_decode_between_parser_and_converter(mode: DecoderMode)
    ensures
        ({
            let names = elements_of(mode);
            &&& names.len() == 6
            &&& names[0] == "fdsrc"@ && names[1] == "qtdemux"@ && names[2] == "h265parse"@
            &&& mode == DecoderMode::Automatic ==> names[3] == "decodebin"@
            &&& mode == DecoderMode::Software ==> names[3] == "avdec_h265"@
            &&& names[4] == "videoconvert"@ && names[5] == "videorate"@
        }),
{
}

} // verus!
