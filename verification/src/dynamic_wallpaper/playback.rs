//! Deterministic `h24` selection and bounded transition state.
//!
//! Moments and spans of the monotonic clock are nanoseconds.

use vstd::prelude::*;

use super::clock::{time_of_day, seconds_of_day, ClockSnapshot, SECOND};
use super::fraction::{effective_boundary_second, DAY_SECONDS};
use super::heic::{FrameModel, RgbaFrame};
use super::model::{AppearancePreference, ImageReference, Metadata, Selection, TimePoint};
use super::pixels::reserve_bytes;

verus! {

/// How long a schedule may go without looking at the clock, and how long a
/// failed image is left alone.
pub const RESYNCHRONIZE_AFTER: u128 = 60_000_000_000;

/// How long two images are blended at a boundary.
pub const DISSOLVE_DURATION: u128 = 2_000_000_000;

/// How far wall clock and monotonic clock may drift apart between two readings.
pub const CLOCK_TOLERANCE: i128 = 1_000_000_000;

/// The memory one frame may take.
pub const MAX_FRAME_BYTES: usize = 134_217_728;

/// The last moment of the monotonic clock.
pub const LAST_MOMENT: u128 = 18_446_744_073_709_551_615_999_999_999;

// ---------------------------------------------------------------------------
// Frames
// ---------------------------------------------------------------------------

/// The blend of two channels, `weight` parts in 256 of the second.
pub open spec fn blended_channel(from: u8, to: u8, weight: int) -> u8 {
    ((from * (256 - weight) + to * weight + 128) / 256) as u8
}

/// The blend of two frames of one size.
pub open spec fn blended(from: Seq<u8>, to: Seq<u8>, weight: int) -> Seq<u8> {
    Seq::new(to.len(), |index: int| blended_channel(from[index], to[index], weight))
}

/// Whether a frame is complete, opaque, and within `limit` bytes.
pub open spec fn frame_valid(frame: FrameModel, limit: int) -> bool {
    &&& frame.width > 0
    &&& frame.height > 0
    &&& frame.pixels.len() == 4 * frame.width * frame.height
    &&& frame.pixels.len() <= limit
    &&& super::pixels::opaque(frame.pixels)
}

/// Whether a frame that retains `capacity` bytes may be presented.
pub open spec fn presentable(frame: FrameModel, capacity: usize, limit: usize) -> bool {
    frame_valid(frame, limit as int) && capacity <= limit
}

/// Whether two frames have one size.
pub open spec fn same_size(left: FrameModel, right: FrameModel) -> bool {
    left.width == right.width && left.height == right.height
}

/// The bytes a frame retains, from `Vec::capacity`: never fewer than its pixels
/// take. How many more is up to the allocator.
#[verifier::external_body]
fn retained_bytes(frame: &RgbaFrame) -> (capacity: usize)
    ensures
        capacity >= frame.pixels@.len(),
{
    frame.pixels.capacity()
}

/// Whether a frame that retains `capacity` bytes may be presented.
pub fn valid_frame_sized(frame: &RgbaFrame, capacity: usize, max_frame_bytes: usize) -> (valid:
    bool)
    ensures
        valid == presentable(frame@, capacity, max_frame_bytes),
{
    let length: usize = frame.pixels.len();
    assert(frame.width * frame.height <= 0xffff_fffe_0000_0001) by (nonlinear_arith)
        requires
            0 <= frame.width <= 0xffff_ffff,
            0 <= frame.height <= 0xffff_ffff,
    ;
    assert(0 <= frame.width * frame.height) by (nonlinear_arith)
        requires
            0 <= frame.width,
            0 <= frame.height,
    ;
    let bytes: u128 = frame.width as u128 * frame.height as u128 * 4;
    assert(bytes == 4 * frame.width * frame.height) by (nonlinear_arith)
        requires
            bytes == frame.width * frame.height * 4,
    ;
    if frame.width == 0 || frame.height == 0 || bytes > max_frame_bytes as u128 || length as u128
        != bytes || capacity > max_frame_bytes {
        return false;
    }
    let mut index: usize = 0;
    let pixels: usize = length / 4;
    while index < pixels
        invariant
            length == frame.pixels@.len(),
            pixels == length / 4,
            index <= pixels,
            forall|pixel: int|
                0 <= pixel < index ==> #[trigger] frame.pixels@[4 * pixel + 3] == 255,
        decreases pixels - index,
    {
        if frame.pixels[4 * index + 3] != 255 {
            assert(frame.pixels@[4 * index + 3] != 255);
            return false;
        }
        index += 1;
    }
    true
}

/// Whether a frame, with all the memory it retains, may be presented.
pub fn valid_frame_with_limit(frame: &RgbaFrame, max_frame_bytes: usize) -> (valid: bool)
    ensures
        exists|capacity: usize|
            capacity >= frame.pixels@.len() && valid == #[trigger] presentable(
                frame@,
                capacity,
                max_frame_bytes,
            ),
{
    let capacity: usize = retained_bytes(frame);
    valid_frame_sized(frame, capacity, max_frame_bytes)
}

/// Whether two frames have one size.
pub fn same_dimensions(left: &RgbaFrame, right: &RgbaFrame) -> (same: bool)
    ensures
        same == same_size(left@, right@),
{
    left.width == right.width && left.height == right.height
}

fn same_pixels(left: &Vec<u8>, right: &Vec<u8>) -> (same: bool)
    ensures
        same == (left@ == right@),
{
    if left.len() != right.len() {
        return false;
    }
    let mut index: usize = 0;
    while index < left.len()
        invariant
            left@.len() == right@.len(),
            index <= left@.len(),
            forall|seen: int| 0 <= seen < index ==> left@[seen] == right@[seen],
        decreases left@.len() - index,
    {
        if left[index] != right[index] {
            return false;
        }
        index += 1;
    }
    assert(left@ =~= right@);
    true
}

pub(crate) fn blend_channel(from: u8, to: u8, weight: u16) -> (value: u8)
    requires
        weight <= 256,
    ensures
        value == blended_channel(from, to, weight as int),
{
    let from_weight: u32 = 256 - weight as u32;
    assert(from * from_weight + to * weight <= 255 * 256) by (nonlinear_arith)
        requires
            from <= 255,
            to <= 255,
            from_weight == 256 - weight,
            weight <= 256,
            from_weight >= 0,
    ;
    assert(0 <= from * from_weight <= 255 * 256) by (nonlinear_arith)
        requires
            0 <= from <= 255,
            0 <= from_weight <= 256,
    ;
    assert(0 <= to * weight <= 255 * 256) by (nonlinear_arith)
        requires
            0 <= to <= 255,
            0 <= weight <= 256,
    ;
    ((from as u32 * from_weight + to as u32 * weight as u32 + 128) / 256) as u8
}

/// Blends two frames of one size into reserved memory.
fn blend_reserved(from: &RgbaFrame, to: &RgbaFrame, buffer: Vec<u8>) -> (frame: RgbaFrame)
    requires
        from.pixels@.len() == to.pixels@.len(),
        buffer@.len() == 0,
    ensures
        frame.width == to.width,
        frame.height == to.height,
        frame.pixels@ == blended(from.pixels@, to.pixels@, 0),
{
    let mut pixels: Vec<u8> = buffer;
    let length: usize = to.pixels.len();
    let mut index: usize = 0;
    while index < length
        invariant
            length == to.pixels@.len(),
            from.pixels@.len() == to.pixels@.len(),
            index <= length,
            pixels@ =~= blended(from.pixels@, to.pixels@, 0).take(index as int),
        decreases length - index,
    {
        pixels.push(blend_channel(from.pixels[index], to.pixels[index], 0));
        index += 1;
    }
    assert(blended(from.pixels@, to.pixels@, 0).take(length as int) =~= blended(
        from.pixels@,
        to.pixels@,
        0,
    ));
    RgbaFrame { width: to.width, height: to.height, pixels }
}

/// Blends two frames into a third of the same size, and reports whether any
/// pixel changed.
pub fn blend_into(from: &RgbaFrame, to: &RgbaFrame, blend: &mut RgbaFrame, to_weight: u16) -> (
    changed: bool)
    requires
        from.pixels@.len() == to.pixels@.len(),
        old(blend).pixels@.len() == to.pixels@.len(),
        to_weight <= 256,
    ensures
        final(blend).width == old(blend).width,
        final(blend).height == old(blend).height,
        final(blend).pixels@ == blended(from.pixels@, to.pixels@, to_weight as int),
        changed == (final(blend).pixels@ != old(blend).pixels@),
{
    let length: usize = to.pixels.len();
    let mut changed = false;
    let mut index: usize = 0;
    while index < length
        invariant
            length == to.pixels@.len(),
            from.pixels@.len() == length,
            blend.pixels@.len() == length,
            old(blend).pixels@.len() == length,
            blend.width == old(blend).width,
            blend.height == old(blend).height,
            to_weight <= 256,
            index <= length,
            forall|done: int|
                0 <= done < index ==> blend.pixels@[done] == blended_channel(
                    from.pixels@[done],
                    to.pixels@[done],
                    to_weight as int,
                ),
            forall|rest: int|
                index <= rest < length ==> blend.pixels@[rest] == old(blend).pixels@[rest],
            changed == exists|done: int|
                0 <= done < index && blend.pixels@[done] != old(blend).pixels@[done],
        decreases length - index,
    {
        let value: u8 = blend_channel(from.pixels[index], to.pixels[index], to_weight);
        let ghost before = blend.pixels@;
        if blend.pixels[index] != value {
            changed = true;
        }
        blend.pixels.set(index, value);
        proof {
            if changed {
                if before[index as int] == value {
                    let done = choose|done: int|
                        0 <= done < index && before[done] != old(blend).pixels@[done];
                    assert(blend.pixels@[done] != old(blend).pixels@[done]);
                } else {
                    assert(blend.pixels@[index as int] != old(blend).pixels@[index as int]);
                }
            }
        }
        index += 1;
    }
    assert(blend.pixels@ =~= blended(from.pixels@, to.pixels@, to_weight as int));
    if !changed {
        assert(blend.pixels@ =~= old(blend).pixels@);
    }
    changed
}

// ---------------------------------------------------------------------------
// Selection
// ---------------------------------------------------------------------------

/// Whether points are in the order of their times.
pub open spec fn sorted(points: Seq<TimePoint>) -> bool {
    forall|early: int, late: int|
        0 <= early <= late < points.len() ==> points[early].time.bits <= points[late].time.bits
}

/// The first position from `from` on whose point is after `bits`.
pub open spec fn place_from(points: Seq<TimePoint>, bits: u64, from: int) -> int
    decreases points.len() - from,
{
    if from >= points.len() || points[from].time.bits > bits {
        from
    } else {
        place_from(points, bits, from + 1)
    }
}

/// The points in the order of their times, points of one time in metadata order.
pub open spec fn ordered(points: Seq<TimePoint>) -> Seq<TimePoint>
    decreases points.len(),
{
    if points.len() == 0 {
        Seq::empty()
    } else {
        let before = ordered(points.drop_last());
        before.insert(place_from(before, points.last().time.bits, 0), points.last())
    }
}

proof fn lemma_place(points: Seq<TimePoint>, bits: u64, from: int)
    requires
        0 <= from <= points.len(),
        sorted(points),
        forall|early: int| 0 <= early < from ==> points[early].time.bits <= bits,
    ensures
        from <= place_from(points, bits, from) <= points.len(),
        forall|early: int|
            0 <= early < place_from(points, bits, from) ==> points[early].time.bits <= bits,
        forall|late: int|
            place_from(points, bits, from) <= late < points.len() ==> points[late].time.bits > bits,
    decreases points.len() - from,
{
    if from < points.len() && points[from].time.bits <= bits {
        lemma_place(points, bits, from + 1);
    }
}

proof fn lemma_ordered(points: Seq<TimePoint>)
    ensures
        sorted(ordered(points)),
        ordered(points).len() == points.len(),
    decreases points.len(),
{
    if points.len() > 0 {
        let before = ordered(points.drop_last());
        lemma_ordered(points.drop_last());
        lemma_place(before, points.last().time.bits, 0);
    }
}

/// Ordering a schedule loses no point, puts points in the order of their times,
/// and keeps points of one time in metadata order.
pub proof fn law_ordering_is_stable(points: Seq<TimePoint>, bits: u64)
    ensures
        sorted(ordered(points)),
        ordered(points).to_multiset() == points.to_multiset(),
        ordered(points).filter(|point: TimePoint| point.time.bits == bits) == points.filter(
            |point: TimePoint| point.time.bits == bits,
        ),
    decreases points.len(),
{
    broadcast use vstd::seq_lib::group_to_multiset_ensures;

    lemma_ordered(points);
    let same = |point: TimePoint| point.time.bits == bits;
    if points.len() == 0 {
        assert(ordered(points) =~= points);
    } else {
        let before = ordered(points.drop_last());
        let last = points.last();
        let at = place_from(before, last.time.bits, 0);
        law_ordering_is_stable(points.drop_last(), bits);
        lemma_ordered(points.drop_last());
        lemma_place(before, last.time.bits, 0);
        vstd::seq_lib::to_multiset_insert(before, at, last);
        vstd::seq_lib::to_multiset_build(points.drop_last(), last);
        assert(points.drop_last().push(last) =~= points);
        let head = before.take(at);
        let tail = before.skip(at);
        assert(before =~= head + tail);
        assert(before.insert(at, last) =~= head + (seq![last] + tail));
        Seq::filter_distributes_over_add(head, tail, same);
        Seq::filter_distributes_over_add(head, seq![last] + tail, same);
        Seq::filter_distributes_over_add(seq![last], tail, same);
        reveal_with_fuel(Seq::filter, 2);
        assert(seq![last].drop_last() =~= Seq::<TimePoint>::empty());
        if same(last) {
            assert forall|late: int| 0 <= late < tail.len() implies !same(tail[late]) by {
                assert(tail[late] == before[at + late]);
            }
            tail.lemma_all_neg_filter_empty(same);
            assert(tail.filter(same) =~= Seq::empty());
            assert(ordered(points).filter(same) =~= head.filter(same).push(last));
        } else {
            assert(ordered(points).filter(same) =~= before.filter(same));
        }
    }
}

/// Puts points in the order of their times.
fn order(points: &Vec<TimePoint>) -> (result: Vec<TimePoint>)
    ensures
        result@ == ordered(points@),
{
    let count: usize = points.len();
    let mut result: Vec<TimePoint> = Vec::with_capacity(count);
    let mut index: usize = 0;
    assert(points@.take(0) =~= Seq::empty());
    while index < count
        invariant
            count == points@.len(),
            index <= count,
            result@ == ordered(points@.take(index as int)),
        decreases count - index,
    {
        let point = points[index];
        let mut place: usize = 0;
        proof {
            lemma_ordered(points@.take(index as int));
        }
        while place < result.len() && result[place].time.bits <= point.time.bits
            invariant
                place <= result@.len(),
                place_from(result@, point.time.bits, 0) == place_from(
                    result@,
                    point.time.bits,
                    place as int,
                ),
            decreases result@.len() - place,
        {
            place += 1;
        }
        result.insert(place, point);
        assert(points@.take(index + 1).drop_last() =~= points@.take(index as int));
        index += 1;
    }
    assert(points@.take(count as int) =~= points@);
    result
}

/// The last of the first `count` points that took effect by the second `now`;
/// before the first of them, the last point of the day before.
pub open spec fn selected_among(points: Seq<TimePoint>, now: int, count: int) -> TimePoint
    decreases count,
{
    if count <= 0 {
        points.last()
    } else if super::fraction::boundary_second(points[count - 1].time.bits) <= now {
        points[count - 1]
    } else {
        selected_among(points, now, count - 1)
    }
}

/// The point in effect on a clock.
pub open spec fn point_at(points: Seq<TimePoint>, clock: ClockSnapshot) -> TimePoint {
    selected_among(points, super::clock::second_of_day(clock), points.len() as int)
}

/// The point in effect on a clock.
pub fn selected_point(points: &Vec<TimePoint>, clock: ClockSnapshot) -> (point: TimePoint)
    requires
        points@.len() > 0,
        clock.wf(),
    ensures
        point == point_at(points@, clock),
{
    let now: u32 = seconds_of_day(clock);
    let mut count: usize = points.len();
    while count > 0
        invariant
            count <= points@.len(),
            now == super::clock::second_of_day(clock),
            point_at(points@, clock) == selected_among(points@, now as int, count as int),
        decreases count,
    {
        if effective_boundary_second(points[count - 1].time.bits) <= now {
            return points[count - 1];
        }
        count -= 1;
    }
    points[points.len() - 1]
}

proof fn lemma_selected(points: Seq<TimePoint>, now: int, count: int)
    requires
        sorted(points),
        0 <= count <= points.len(),
        points.len() > 0,
        forall|later: int|
            count <= later < points.len() ==> super::fraction::boundary_second(
                (#[trigger] points[later]).time.bits,
            ) > now,
    ensures
        ({
            let point = selected_among(points, now, count);
            if exists|index: int|
                0 <= index < points.len() && super::fraction::boundary_second(
                    (#[trigger] points[index]).time.bits,
                ) <= now {
                exists|index: int|
                    0 <= index < points.len() && point == #[trigger] points[index]
                        && super::fraction::boundary_second(point.time.bits) <= now && (forall|
                        other: int,
                    |
                        0 <= other < points.len() && super::fraction::boundary_second(
                            (#[trigger] points[other]).time.bits,
                        ) <= now ==> other <= index && points[other].time.bits <= point.time.bits)
            } else {
                point == points.last()
            }
        }),
    decreases count,
{
    if count > 0 {
        if super::fraction::boundary_second(points[count - 1].time.bits) <= now {
            assert(selected_among(points, now, count) == points[count - 1]);
        } else {
            lemma_selected(points, now, count - 1);
        }
    }
}

/// The image on show is that of the latest point already in effect today, the
/// last of points that share a time, or else that of yesterday's last point.
pub proof fn law_selection_takes_the_latest_point(points: Seq<TimePoint>, clock: ClockSnapshot)
    requires
        points.len() > 0,
        sorted(points),
    ensures
        ({
            let now = super::clock::second_of_day(clock);
            let point = point_at(points, clock);
            if exists|index: int|
                0 <= index < points.len() && super::fraction::boundary_second(
                    (#[trigger] points[index]).time.bits,
                ) <= now {
                exists|index: int|
                    0 <= index < points.len() && point == #[trigger] points[index]
                        && super::fraction::boundary_second(point.time.bits) <= now && (forall|
                        other: int,
                    |
                        0 <= other < points.len() && super::fraction::boundary_second(
                            (#[trigger] points[other]).time.bits,
                        ) <= now ==> other <= index && points[other].time.bits <= point.time.bits)
            } else {
                point == points.last()
            }
        }),
{
    lemma_selected(points, super::clock::second_of_day(clock), points.len() as int);
}

/// How long the selected point was in effect on a clock.
pub open spec fn in_effect(points: Seq<TimePoint>, clock: ClockSnapshot) -> int {
    let day = DAY_SECONDS * SECOND;
    let now = super::clock::moment_of_day(clock);
    let boundary = super::fraction::boundary_second(point_at(points, clock).time.bits) * SECOND;
    if boundary <= now {
        now - boundary
    } else if boundary == day {
        now
    } else {
        day - boundary + now
    }
}

/// When the selected point took effect, on the monotonic clock.
pub open spec fn took_effect(
    points: Seq<TimePoint>,
    clock: ClockSnapshot,
    monotonic: u128,
) -> Option<u128> {
    if monotonic >= in_effect(points, clock) {
        Some((monotonic - in_effect(points, clock)) as u128)
    } else {
        None
    }
}

/// When the selected point took effect, on the monotonic clock.
pub fn boundary_start(points: &Vec<TimePoint>, clock: ClockSnapshot, monotonic: u128) -> (start:
    Option<u128>)
    requires
        points@.len() > 0,
        clock.wf(),
    ensures
        start == took_effect(points@, clock, monotonic),
{
    let selected = selected_point(points, clock);
    let day: u128 = DAY_SECONDS as u128 * SECOND;
    let boundary: u128 = effective_boundary_second(selected.time.bits) as u128 * SECOND;
    let now: u128 = time_of_day(clock);
    let elapsed: u128 = if boundary <= now {
        now - boundary
    } else if boundary == day {
        now
    } else {
        day - boundary + now
    };
    monotonic.checked_sub(elapsed)
}

/// Whether two readings do not agree on how much time passed.
pub open spec fn discontinuous(
    previous_clock: ClockSnapshot,
    previous_monotonic: u128,
    clock: ClockSnapshot,
    monotonic: u128,
) -> bool {
    let drift = (super::clock::utc_moment(clock) - super::clock::utc_moment(previous_clock)) - (
    monotonic - previous_monotonic);
    ||| clock.utc_offset_seconds != previous_clock.utc_offset_seconds
    ||| monotonic < previous_monotonic
    ||| drift > CLOCK_TOLERANCE
    ||| -drift > CLOCK_TOLERANCE
}

/// Whether two readings do not agree on how much time passed.
pub fn clock_discontinuity(
    previous_clock: ClockSnapshot,
    previous_monotonic: u128,
    clock: ClockSnapshot,
    monotonic: u128,
) -> (answer: bool)
    requires
        previous_clock.wf(),
        clock.wf(),
    ensures
        answer == discontinuous(previous_clock, previous_monotonic, clock, monotonic),
{
    if clock.utc_offset_seconds != previous_clock.utc_offset_seconds || monotonic
        < previous_monotonic {
        return true;
    }
    let wall_delta: i128 = clock.utc_nanoseconds() - previous_clock.utc_nanoseconds();
    let monotonic_delta: u128 = monotonic - previous_monotonic;
    if monotonic_delta > 0x4_0000_0000_0000_0000_0000_0000 {
        return true;
    }
    let drift: i128 = wall_delta - monotonic_delta as i128;
    drift > CLOCK_TOLERANCE || -drift > CLOCK_TOLERANCE
}

// ---------------------------------------------------------------------------
// State
// ---------------------------------------------------------------------------

/// A numbered request to decode an image.
#[derive(Clone, Copy, Debug, PartialEq, Eq, Structural)]
pub struct DecodeRequest {
    pub generation: u64,
    pub image: ImageReference,
}

/// What became of a decoded image.
#[derive(Clone, Copy, Debug, PartialEq, Eq, Structural)]
pub enum DecodeOutcome {
    Ignored,
    Failed,
    Rejected,
    Presented,
    Transitioning,
}

/// What looking at the clock came to.
#[derive(Clone, Copy, Debug, PartialEq, Eq, Structural)]
pub struct SynchronizeOutcome {
    pub selection_changed: bool,
    pub discontinuity: bool,
    pub presentation_changed: bool,
}

/// Where decode requests get their numbers from. One source numbers the requests
/// of every playback, so that a request of one is never taken for another's.
#[derive(Debug)]
pub struct Generations {
    pub next: u64,
}

/// The number after a number.
pub open spec fn following(generation: u64) -> u64 {
    if generation == u64::MAX {
        0
    } else {
        (generation + 1) as u64
    }
}

impl Generations {
    pub fn new() -> (generations: Self)
        ensures
            generations.next == 1,
    {
        Generations { next: 1 }
    }

    fn take(&mut self) -> (generation: u64)
        ensures
            generation == old(self).next,
            final(self).next == following(old(self).next),
    {
        let generation: u64 = self.next;
        self.next = generation.wrapping_add(1);
        generation
    }
}

#[derive(Debug)]
enum Mode {
    Static,
    Time(Vec<TimePoint>),
}

/// A request that was not answered yet.
#[derive(Clone, Copy, Debug, PartialEq, Eq, Structural)]
pub struct PendingDecode {
    pub request: DecodeRequest,
    /// When the image took effect, where it is to be blended in.
    pub transition_started_at: Option<u128>,
    pub dispatched: bool,
}

#[derive(Debug)]
struct Transition {
    from: RgbaFrame,
    to: RgbaFrame,
    blend: RgbaFrame,
    to_image: ImageReference,
    started_at: u128,
}

/// Renderer-neutral playback state for an `h24` schedule or static fallback.
///
/// At most three decoded frames are retained: the two dissolve endpoints and one
/// current blended frame.
#[derive(Debug)]
pub struct Playback {
    mode: Mode,
    primary: ImageReference,
    reduced_motion: bool,
    selected: ImageReference,
    generation: u64,
    pending: Option<PendingDecode>,
    presented: Option<RgbaFrame>,
    presented_image: Option<ImageReference>,
    transition: Option<Transition>,
    retry_not_before: Option<u128>,
    last_clock: ClockSnapshot,
    last_monotonic: u128,
}

/// Two frames that are blended, and the current blend.
#[verifier::ext_equal]
pub struct TransitionModel {
    pub from: FrameModel,
    pub to: FrameModel,
    pub blend: FrameModel,
    pub to_image: ImageReference,
    pub started_at: u128,
}

/// Playback by its contents. Without points there is one image only.
#[verifier::ext_equal]
pub struct PlaybackModel {
    pub points: Option<Seq<TimePoint>>,
    pub primary: ImageReference,
    pub reduced_motion: bool,
    pub selected: ImageReference,
    pub generation: u64,
    pub pending: Option<PendingDecode>,
    pub presented: Option<FrameModel>,
    pub presented_image: Option<ImageReference>,
    pub transition: Option<TransitionModel>,
    pub retry_not_before: Option<u128>,
    pub last_clock: ClockSnapshot,
    pub last_monotonic: u128,
}

/// A frame, if there is one.
pub open spec fn frame_of(frame: Option<RgbaFrame>) -> Option<FrameModel> {
    match frame {
        Some(frame) => Some(frame@),
        None => None,
    }
}

/// The frame of an answer, if it holds one.
pub open spec fn answer_of(result: Result<RgbaFrame, ()>) -> Option<FrameModel> {
    match result {
        Ok(frame) => Some(frame@),
        Err(_) => None,
    }
}

impl Transition {
    spec fn model(self) -> TransitionModel {
        TransitionModel {
            from: self.from@,
            to: self.to@,
            blend: self.blend@,
            to_image: self.to_image,
            started_at: self.started_at,
        }
    }
}

impl View for Playback {
    type V = PlaybackModel;

    closed spec fn view(&self) -> PlaybackModel {
        PlaybackModel {
            points: match self.mode {
                Mode::Static => None,
                Mode::Time(points) => Some(points@),
            },
            primary: self.primary,
            reduced_motion: self.reduced_motion,
            selected: self.selected,
            generation: self.generation,
            pending: self.pending,
            presented: frame_of(self.presented),
            presented_image: self.presented_image,
            transition: match self.transition {
                Some(transition) => Some(transition.model()),
                None => None,
            },
            retry_not_before: self.retry_not_before,
            last_clock: self.last_clock,
            last_monotonic: self.last_monotonic,
        }
    }
}

impl PlaybackModel {
    /// Whether images follow each other without being blended.
    pub open spec fn still(self) -> bool {
        self.reduced_motion || self.points is None
    }

    /// What holds of every playback.
    pub open spec fn wf(self) -> bool {
        &&& self.points matches Some(points) ==> points.len() > 0 && sorted(points)
        &&& self.last_clock.wf()
        &&& self.pending matches Some(pending) ==> pending.request.generation == self.generation
        &&& self.presented matches Some(frame) ==> frame_valid(frame, MAX_FRAME_BYTES as int)
        &&& self.presented_image is Some ==> self.presented is Some
        &&& self.transition matches Some(transition) ==> {
            &&& self.pending is None
            &&& self.presented is None
            &&& self.presented_image is None
            &&& !self.still()
            &&& frame_valid(transition.from, MAX_FRAME_BYTES as int)
            &&& frame_valid(transition.to, MAX_FRAME_BYTES as int)
            &&& frame_valid(transition.blend, MAX_FRAME_BYTES as int)
            &&& same_size(transition.from, transition.to)
            &&& same_size(transition.blend, transition.to)
        }
        &&& self.still() ==> (self.pending matches Some(pending)
            ==> pending.transition_started_at is None)
    }

    /// The frame on show.
    pub open spec fn frame(self) -> Option<FrameModel> {
        match self.transition {
            Some(transition) => Some(transition.blend),
            None => self.presented,
        }
    }

    /// The frames that are kept in memory.
    pub open spec fn frames(self) -> Seq<FrameModel> {
        let presented = match self.presented {
            Some(frame) => seq![frame],
            None => Seq::empty(),
        };
        let blended = match self.transition {
            Some(transition) => seq![transition.from, transition.to, transition.blend],
            None => Seq::empty(),
        };
        presented + blended
    }

    /// The playback that asks for an image under a new number.
    pub open spec fn requesting(
        self,
        image: ImageReference,
        fresh: u64,
        transition_started_at: Option<u128>,
    ) -> Self {
        PlaybackModel {
            generation: fresh,
            pending: Some(
                PendingDecode {
                    request: DecodeRequest { generation: fresh, image },
                    transition_started_at,
                    dispatched: false,
                },
            ),
            ..self
        }
    }

    /// The playback whose current blend stays on show.
    pub open spec fn frozen(self) -> Self {
        match self.transition {
            Some(transition) => PlaybackModel {
                presented: Some(transition.blend),
                presented_image: None,
                transition: None,
                ..self
            },
            None => self,
        }
    }

    /// The playback whose transition is over.
    pub open spec fn settled(self) -> Self {
        match self.transition {
            Some(transition) => PlaybackModel {
                presented: Some(transition.to),
                presented_image: Some(transition.to_image),
                transition: None,
                ..self
            },
            None => self,
        }
    }

    /// Whether the image on show is not the selected one, and nothing is under
    /// way to change that.
    pub open spec fn lacking(self) -> bool {
        self.pending is None && self.transition is None && self.presented_image != Some(
            self.selected,
        )
    }

    /// Whether a failed image may be tried again.
    pub open spec fn due(self, monotonic: u128) -> bool {
        match self.retry_not_before {
            Some(moment) => monotonic >= moment,
            None => true,
        }
    }

    /// The image a clock selects.
    pub open spec fn choice(self, clock: ClockSnapshot) -> ImageReference {
        match self.points {
            Some(points) => point_at(points, clock).image,
            None => self.selected,
        }
    }

    /// When the selected image took effect, where it is to be blended in.
    pub open spec fn blend_start(self, clock: ClockSnapshot, monotonic: u128) -> Option<u128> {
        match self.points {
            Some(points) => if self.reduced_motion {
                None
            } else {
                took_effect(points, clock, monotonic)
            },
            None => None,
        }
    }
}

/// A new playback.
pub open spec fn started(
    selection: Selection<'_>,
    primary: ImageReference,
    clock: ClockSnapshot,
    monotonic: u128,
    reduced_motion: bool,
    fresh: u64,
) -> PlaybackModel {
    let points = match selection {
        Selection::Time(schedule) => Some(ordered(schedule.listed())),
        _ => None,
    };
    let selected = match selection {
        Selection::Time(schedule) => point_at(ordered(schedule.listed()), clock).image,
        Selection::Static(image) => image,
        Selection::Primary => primary,
    };
    (PlaybackModel {
        points,
        primary,
        reduced_motion,
        selected,
        generation: fresh,
        pending: None,
        presented: None,
        presented_image: None,
        transition: None,
        retry_not_before: None,
        last_clock: clock,
        last_monotonic: monotonic,
    }).requesting(selected, fresh, None)
}

/// What asking for the pending request comes to: it is handed out once.
pub open spec fn handed_out(playback: PlaybackModel) -> (PlaybackModel, Option<DecodeRequest>) {
    match playback.pending {
        Some(pending) => if pending.dispatched {
            (playback, None)
        } else {
            (
                PlaybackModel {
                    pending: Some(PendingDecode { dispatched: true, ..pending }),
                    ..playback
                },
                Some(pending.request),
            )
        },
        None => (playback, None),
    }
}

/// What looking at the clock comes to: the new state, the outcome, and whether a
/// request was numbered.
pub open spec fn synchronized(
    playback: PlaybackModel,
    clock: ClockSnapshot,
    monotonic: u128,
    forced: bool,
    fresh: u64,
) -> (PlaybackModel, SynchronizeOutcome, bool) {
    let discontinuity = forced || discontinuous(
        playback.last_clock,
        playback.last_monotonic,
        clock,
        monotonic,
    );
    let selection = playback.choice(clock);
    let noted = PlaybackModel { last_clock: clock, last_monotonic: monotonic, ..playback };
    if selection != playback.selected {
        let start = if discontinuity {
            None
        } else {
            playback.blend_start(clock, monotonic)
        };
        (
            (PlaybackModel { selected: selection, retry_not_before: None, ..noted.frozen() }).requesting(
                selection,
                fresh,
                start,
            ),
            SynchronizeOutcome {
                selection_changed: true,
                discontinuity,
                presentation_changed: false,
            },
            true,
        )
    } else if discontinuity {
        let settled = noted.settled();
        let outcome = SynchronizeOutcome {
            selection_changed: false,
            discontinuity: true,
            presentation_changed: playback.transition matches Some(transition)
                && transition.blend.pixels != transition.to.pixels,
        };
        if settled.pending matches Some(pending) && pending.request.image == selection {
            (settled.requesting(selection, fresh, None), outcome, true)
        } else if settled.lacking() && settled.due(monotonic) {
            (
                (PlaybackModel { retry_not_before: None, ..settled }).requesting(
                    selection,
                    fresh,
                    None,
                ),
                outcome,
                true,
            )
        } else {
            (settled, outcome, false)
        }
    } else {
        let outcome = SynchronizeOutcome {
            selection_changed: false,
            discontinuity: false,
            presentation_changed: false,
        };
        if noted.lacking() && noted.due(monotonic) {
            (
                (PlaybackModel { retry_not_before: None, ..noted }).requesting(
                    selection,
                    fresh,
                    playback.blend_start(clock, monotonic),
                ),
                outcome,
                true,
            )
        } else {
            (noted, outcome, false)
        }
    }
}

/// How long a span from one moment to another is, nothing for one that ends
/// before it starts.
pub open spec fn span(from: u128, to: u128) -> int {
    if to > from {
        to - from
    } else {
        0
    }
}

/// The weight of the second image after a part of the dissolve.
pub open spec fn dissolve_weight(elapsed: int) -> int {
    elapsed * 256 / DISSOLVE_DURATION as int
}

/// What sampling an active dissolve comes to: the new state, and whether any
/// pixel on show changed.
pub open spec fn advanced(playback: PlaybackModel, monotonic: u128) -> (PlaybackModel, bool) {
    match playback.transition {
        None => (playback, false),
        Some(transition) => {
            let elapsed = span(transition.started_at, monotonic);
            if elapsed >= DISSOLVE_DURATION {
                (playback.settled(), transition.blend.pixels != transition.to.pixels)
            } else {
                let pixels = blended(
                    transition.from.pixels,
                    transition.to.pixels,
                    dissolve_weight(elapsed),
                );
                (
                    PlaybackModel {
                        transition: Some(
                            TransitionModel {
                                blend: FrameModel { pixels, ..transition.blend },
                                ..transition
                            },
                        ),
                        ..playback
                    },
                    transition.blend.pixels != pixels,
                )
            }
        },
    }
}

/// The moment a failed image may be tried again.
pub open spec fn retry_moment(monotonic: u128) -> Option<u128> {
    if monotonic + RESYNCHRONIZE_AFTER <= LAST_MOMENT {
        Some((monotonic + RESYNCHRONIZE_AFTER) as u128)
    } else {
        None
    }
}

/// The playback after an image could not be had: the primary image is asked for
/// where nothing is on show. The second part says whether a request was
/// numbered.
pub open spec fn after_failure(
    playback: PlaybackModel,
    image: ImageReference,
    monotonic: u128,
    fresh: u64,
) -> (PlaybackModel, bool) {
    let waiting = PlaybackModel { retry_not_before: retry_moment(monotonic), ..playback };
    if playback.presented is Some || image == playback.primary {
        (waiting, false)
    } else {
        (waiting.requesting(playback.primary, fresh, None), true)
    }
}

/// Whether a decoded frame is blended in, if there is memory for it.
pub open spec fn dissolves(
    playback: PlaybackModel,
    pending: PendingDecode,
    frame: FrameModel,
    monotonic: u128,
    max_blend_bytes: usize,
) -> bool {
    &&& playback.presented matches Some(previous) && same_size(previous, frame)
    &&& pending.transition_started_at matches Some(moment) && span(moment, monotonic)
        < DISSOLVE_DURATION
    &&& frame.pixels.len() <= max_blend_bytes
}

/// What an answer to a request comes to: the new state, the outcome, and whether
/// a request was numbered. `capacity` is the memory the frame retains, and
/// `reserved` whether there was memory for a blend.
pub open spec fn completed(
    playback: PlaybackModel,
    request: DecodeRequest,
    result: Option<FrameModel>,
    capacity: usize,
    reserved: bool,
    monotonic: u128,
    max_blend_bytes: usize,
    fresh: u64,
) -> (PlaybackModel, DecodeOutcome, bool) {
    match playback.pending {
        Some(pending) => if pending.request != request || !pending.dispatched {
            (playback, DecodeOutcome::Ignored, false)
        } else {
            let answered = PlaybackModel { pending: None, ..playback };
            match result {
                None => {
                    let (after, used) = after_failure(answered, request.image, monotonic, fresh);
                    (after, DecodeOutcome::Failed, used)
                },
                Some(frame) => if !presentable(frame, capacity, MAX_FRAME_BYTES) {
                    let (after, used) = after_failure(answered, request.image, monotonic, fresh);
                    (after, DecodeOutcome::Rejected, used)
                } else {
                    let cleared = if request.image == playback.selected {
                        PlaybackModel { retry_not_before: None, ..answered }
                    } else {
                        answered
                    };
                    if dissolves(playback, pending, frame, monotonic, max_blend_bytes) && reserved {
                        let previous = playback.presented->Some_0;
                        let dissolving = PlaybackModel {
                            presented: None,
                            presented_image: None,
                            transition: Some(
                                TransitionModel {
                                    from: previous,
                                    to: frame,
                                    blend: FrameModel {
                                        pixels: blended(previous.pixels, frame.pixels, 0),
                                        ..frame
                                    },
                                    to_image: request.image,
                                    started_at: pending.transition_started_at->Some_0,
                                },
                            ),
                            ..cleared
                        };
                        (advanced(dissolving, monotonic).0, DecodeOutcome::Transitioning, false)
                    } else {
                        (
                            PlaybackModel {
                                presented: Some(frame),
                                presented_image: Some(request.image),
                                transition: None,
                                ..cleared
                            },
                            DecodeOutcome::Presented,
                            false,
                        )
                    }
                },
            }
        },
        None => (playback, DecodeOutcome::Ignored, false),
    }
}

/// How long it is to a boundary.
pub open spec fn wait(boundary: int, now: int) -> int {
    if boundary * SECOND > now {
        boundary * SECOND - now
    } else {
        DAY_SECONDS * SECOND - now + boundary * SECOND
    }
}

/// How long it is to the next boundary of the first `count` points.
pub open spec fn soonest(points: Seq<TimePoint>, now: int, count: int) -> int
    decreases count,
{
    let last = wait(super::fraction::boundary_second(points[count - 1].time.bits), now);
    if count <= 1 {
        last
    } else {
        let before = soonest(points, now, count - 1);
        if last < before {
            last
        } else {
            before
        }
    }
}

/// The delay until the clock has to be looked at again: the next boundary or
/// retry, and a minute at most. Without either there is nothing to wait for.
pub open spec fn wake(playback: PlaybackModel, clock: ClockSnapshot, monotonic: u128) -> Option<
    int,
> {
    let retry = if playback.lacking() {
        match playback.retry_not_before {
            Some(moment) => Some(span(monotonic, moment)),
            None => None,
        }
    } else {
        None
    };
    let capped = match retry {
        Some(delay) => if delay < RESYNCHRONIZE_AFTER {
            delay
        } else {
            RESYNCHRONIZE_AFTER as int
        },
        None => RESYNCHRONIZE_AFTER as int,
    };
    match playback.points {
        Some(points) => {
            let boundary = soonest(
                points,
                super::clock::moment_of_day(clock),
                points.len() as int,
            );
            if boundary < capped {
                Some(boundary)
            } else {
                Some(capped)
            }
        },
        None => if retry is Some {
            Some(capped)
        } else {
            None
        },
    }
}

// ---------------------------------------------------------------------------
// Execution
// ---------------------------------------------------------------------------

proof fn lemma_blend_is_opaque(from: Seq<u8>, to: Seq<u8>, weight: int)
    requires
        from.len() == to.len(),
        super::pixels::opaque(from),
        super::pixels::opaque(to),
        0 <= weight <= 256,
    ensures
        super::pixels::opaque(blended(from, to, weight)),
{
    assert forall|pixel: int|
        0 <= pixel && 4 * pixel + 3 < blended(from, to, weight).len() implies #[trigger] blended(
        from,
        to,
        weight,
    )[4 * pixel + 3] == 255 by {
        assert(from[4 * pixel + 3] == 255);
        assert(to[4 * pixel + 3] == 255);
        assert((255 * (256 - weight) + 255 * weight + 128) / 256 == 255) by (nonlinear_arith)
            requires
                0 <= weight <= 256,
        ;
    }
}

proof fn lemma_weight(elapsed: int)
    requires
        0 <= elapsed < DISSOLVE_DURATION,
    ensures
        0 <= dissolve_weight(elapsed) < 256,
{
}

impl Playback {
    /// A playback that asks for the image its clock selects.
    pub fn new(
        metadata: &Metadata,
        primary: ImageReference,
        appearance: AppearancePreference,
        clock: ClockSnapshot,
        monotonic: u128,
        reduced_motion: bool,
        generations: &mut Generations,
    ) -> (playback: Self)
        requires
            clock.wf(),
        ensures
            playback@.wf(),
            playback@ == started(
                super::model::selection(*metadata, appearance),
                primary,
                clock,
                monotonic,
                reduced_motion,
                old(generations).next,
            ),
            final(generations).next == following(old(generations).next),
    {
        let (mode, selected) = match metadata.select(appearance) {
            Selection::Time(schedule) => {
                let points = order(schedule.points());
                proof {
                    lemma_ordered(schedule.listed());
                }
                let selected = selected_point(&points, clock).image;
                (Mode::Time(points), selected)
            },
            Selection::Static(image) => (Mode::Static, image),
            Selection::Primary => (Mode::Static, primary),
        };
        let request = DecodeRequest { generation: generations.take(), image: selected };
        Playback {
            mode,
            primary,
            reduced_motion,
            selected,
            generation: request.generation,
            pending: Some(
                PendingDecode { request, transition_started_at: None, dispatched: false },
            ),
            presented: None,
            presented_image: None,
            transition: None,
            retry_not_before: None,
            last_clock: clock,
            last_monotonic: monotonic,
        }
    }

    pub fn selected(&self) -> (image: ImageReference)
        ensures
            image == self@.selected,
    {
        self.selected
    }

    /// The frame on show.
    pub fn frame(&self) -> (frame: Option<&RgbaFrame>)
        ensures
            (match frame {
                Some(frame) => Some(frame@),
                None => None,
            }) == self@.frame(),
    {
        match &self.transition {
            Some(transition) => Some(&transition.blend),
            None => self.presented.as_ref(),
        }
    }

    pub fn is_transitioning(&self) -> (answer: bool)
        ensures
            answer == self@.transition is Some,
    {
        self.transition.is_some()
    }

    /// Hands out the pending request, once.
    pub fn take_decode_request(&mut self) -> (request: Option<DecodeRequest>)
        ensures
            old(self)@.wf() ==> final(self)@.wf(),
            (final(self)@, request) == handed_out(old(self)@),
    {
        match self.pending {
            Some(pending) => {
                if pending.dispatched {
                    return None;
                }
                self.pending = Some(PendingDecode { dispatched: true, ..pending });
                Some(pending.request)
            },
            None => None,
        }
    }

    /// Re-selects directly from current civil fields. Elapsed boundaries are
    /// never replayed.
    pub fn synchronize(
        &mut self,
        clock: ClockSnapshot,
        monotonic: u128,
        generations: &mut Generations,
    ) -> (outcome: SynchronizeOutcome)
        requires
            old(self)@.wf(),
            clock.wf(),
        ensures
            final(self)@.wf(),
            ({
                let (after, expected, used) = synchronized(
                    old(self)@,
                    clock,
                    monotonic,
                    false,
                    old(generations).next,
                );
                &&& final(self)@ == after
                &&& outcome == expected
                &&& final(generations).next == if used {
                    following(old(generations).next)
                } else {
                    old(generations).next
                }
            }),
    {
        self.synchronize_inner(clock, monotonic, false, generations)
    }

    /// Forces discontinuity behavior for an explicit resume or external
    /// time-zone/clock-change notification.
    pub fn resynchronize_after_discontinuity(
        &mut self,
        clock: ClockSnapshot,
        monotonic: u128,
        generations: &mut Generations,
    ) -> (outcome: SynchronizeOutcome)
        requires
            old(self)@.wf(),
            clock.wf(),
        ensures
            final(self)@.wf(),
            ({
                let (after, expected, used) = synchronized(
                    old(self)@,
                    clock,
                    monotonic,
                    true,
                    old(generations).next,
                );
                &&& final(self)@ == after
                &&& outcome == expected
                &&& final(generations).next == if used {
                    following(old(generations).next)
                } else {
                    old(generations).next
                }
            }),
    {
        self.synchronize_inner(clock, monotonic, true, generations)
    }

    fn request(
        &mut self,
        image: ImageReference,
        transition_started_at: Option<u128>,
        generations: &mut Generations,
    )
        ensures
            final(self)@ == old(self)@.requesting(
                image,
                old(generations).next,
                transition_started_at,
            ),
            final(generations).next == following(old(generations).next),
    {
        self.generation = generations.take();
        self.pending = Some(
            PendingDecode {
                request: DecodeRequest { generation: self.generation, image },
                transition_started_at,
                dispatched: false,
            },
        );
    }

    fn choice(&self, clock: ClockSnapshot) -> (image: ImageReference)
        requires
            self@.wf(),
            clock.wf(),
        ensures
            image == self@.choice(clock),
    {
        match &self.mode {
            Mode::Static => self.selected,
            Mode::Time(points) => selected_point(points, clock).image,
        }
    }

    fn blend_start(&self, clock: ClockSnapshot, monotonic: u128) -> (start: Option<u128>)
        requires
            self@.wf(),
            clock.wf(),
        ensures
            start == self@.blend_start(clock, monotonic),
    {
        match &self.mode {
            Mode::Time(points) => if self.reduced_motion {
                None
            } else {
                boundary_start(points, clock, monotonic)
            },
            Mode::Static => None,
        }
    }

    fn retry_due(&self, monotonic: u128) -> (due: bool)
        ensures
            due == self@.due(monotonic),
    {
        match self.retry_not_before {
            Some(moment) => monotonic >= moment,
            None => true,
        }
    }

    fn is_lacking(&self) -> (lacking: bool)
        ensures
            lacking == self@.lacking(),
    {
        let shown = match self.presented_image {
            Some(image) => image == self.selected,
            None => false,
        };
        self.pending.is_none() && self.transition.is_none() && !shown
    }

    fn settle(&mut self) -> (changed: bool)
        ensures
            final(self)@ == old(self)@.settled(),
            changed == (old(self)@.transition matches Some(transition) && transition.blend.pixels
                != transition.to.pixels),
    {
        match self.transition.take() {
            Some(transition) => {
                let changed = !same_pixels(&transition.blend.pixels, &transition.to.pixels);
                self.presented = Some(transition.to);
                self.presented_image = Some(transition.to_image);
                changed
            },
            None => false,
        }
    }

    fn synchronize_inner(
        &mut self,
        clock: ClockSnapshot,
        monotonic: u128,
        force_discontinuity: bool,
        generations: &mut Generations,
    ) -> (outcome: SynchronizeOutcome)
        requires
            old(self)@.wf(),
            clock.wf(),
        ensures
            final(self)@.wf(),
            ({
                let (after, expected, used) = synchronized(
                    old(self)@,
                    clock,
                    monotonic,
                    force_discontinuity,
                    old(generations).next,
                );
                &&& final(self)@ == after
                &&& outcome == expected
                &&& final(generations).next == if used {
                    following(old(generations).next)
                } else {
                    old(generations).next
                }
            }),
    {
        let discontinuity = force_discontinuity || clock_discontinuity(
            self.last_clock,
            self.last_monotonic,
            clock,
            monotonic,
        );
        let selection = self.choice(clock);
        let start = self.blend_start(clock, monotonic);
        let selection_changed = selection != self.selected;
        let mut presentation_changed = false;
        self.last_clock = clock;
        self.last_monotonic = monotonic;
        if selection_changed {
            if let Some(transition) = self.transition.take() {
                self.presented = Some(transition.blend);
                self.presented_image = None;
            }
            self.selected = selection;
            self.retry_not_before = None;
            let transition_started_at = if discontinuity {
                None
            } else {
                start
            };
            self.request(selection, transition_started_at, generations);
        } else if discontinuity {
            presentation_changed = self.settle();
            let in_flight = match self.pending {
                Some(pending) => pending.request.image == selection,
                None => false,
            };
            if in_flight {
                self.request(selection, None, generations);
            } else if self.is_lacking() && self.retry_due(monotonic) {
                self.retry_not_before = None;
                self.request(selection, None, generations);
            }
        } else if self.is_lacking() && self.retry_due(monotonic) {
            self.retry_not_before = None;
            self.request(selection, start, generations);
        }
        SynchronizeOutcome { selection_changed, discontinuity, presentation_changed }
    }

    /// The next scheduler wake delay. Dissolve frames are intentionally absent
    /// here: a presentation consumer advances them from compositor frame
    /// callbacks.
    pub fn next_wake(&self, clock: ClockSnapshot, monotonic: u128) -> (delay: Option<u128>)
        requires
            self@.wf(),
            clock.wf(),
        ensures
            (match delay {
                Some(delay) => Some(delay as int),
                None => None,
            }) == wake(self@, clock, monotonic),
    {
        let retry = if self.is_lacking() {
            match self.retry_not_before {
                Some(moment) => Some(moment.saturating_sub(monotonic)),
                None => None,
            }
        } else {
            None
        };
        let capped: u128 = match retry {
            Some(delay) => if delay < RESYNCHRONIZE_AFTER {
                delay
            } else {
                RESYNCHRONIZE_AFTER
            },
            None => RESYNCHRONIZE_AFTER,
        };
        match &self.mode {
            Mode::Time(points) => {
                let boundary: u128 = next_boundary(points, clock);
                if boundary < capped {
                    Some(boundary)
                } else {
                    Some(capped)
                }
            },
            Mode::Static => if retry.is_some() {
                Some(capped)
            } else {
                None
            },
        }
    }

    fn fail(&mut self, image: ImageReference, monotonic: u128, generations: &mut Generations)
        ensures
            ({
                let (after, used) = after_failure(
                    old(self)@,
                    image,
                    monotonic,
                    old(generations).next,
                );
                &&& final(self)@ == after
                &&& final(generations).next == if used {
                    following(old(generations).next)
                } else {
                    old(generations).next
                }
            }),
    {
        self.retry_not_before = match monotonic.checked_add(RESYNCHRONIZE_AFTER) {
            Some(moment) => if moment <= LAST_MOMENT {
                Some(moment)
            } else {
                None
            },
            None => None,
        };
        self.queue_primary_fallback(image, generations);
    }

    fn queue_primary_fallback(&mut self, failed: ImageReference, generations: &mut Generations)
        ensures
            if old(self)@.presented is Some || failed == old(self)@.primary {
                final(self)@ == old(self)@ && final(generations).next == old(generations).next
            } else {
                &&& final(self)@ == old(self)@.requesting(
                    old(self)@.primary,
                    old(generations).next,
                    None,
                )
                &&& final(generations).next == following(old(generations).next)
            },
    {
        if self.presented.is_some() || failed == self.primary {
            return;
        }
        let primary = self.primary;
        self.request(primary, None, generations);
    }

    /// Whether an answer to a request is blended in, if there is memory for it.
    fn would_dissolve(
        &self,
        request: DecodeRequest,
        frame: &RgbaFrame,
        monotonic: u128,
        max_blend_bytes: usize,
    ) -> (answer: bool)
        ensures
            answer == (self@.pending matches Some(pending) && pending.request == request
                && dissolves(self@, pending, frame@, monotonic, max_blend_bytes)),
    {
        let pending = match self.pending {
            Some(pending) => pending,
            None => return false,
        };
        if pending.request != request {
            return false;
        }
        let previous = match &self.presented {
            Some(previous) => previous,
            None => return false,
        };
        match pending.transition_started_at {
            Some(moment) => monotonic.saturating_sub(moment) < DISSOLVE_DURATION && same_dimensions(
                previous,
                frame,
            ) && frame.pixels.len() <= max_blend_bytes,
            None => false,
        }
    }

    /// Takes the answer to a request, `capacity` being the memory the frame
    /// retains, and `buffer` memory for a blend where there was any.
    pub fn complete_decode_given(
        &mut self,
        request: DecodeRequest,
        result: Result<RgbaFrame, ()>,
        capacity: usize,
        buffer: Option<Vec<u8>>,
        monotonic: u128,
        max_blend_bytes: usize,
        generations: &mut Generations,
    ) -> (outcome: DecodeOutcome)
        requires
            old(self)@.wf(),
            buffer matches Some(buffer) ==> buffer@.len() == 0,
        ensures
            final(self)@.wf(),
            ({
                let (after, expected, used) = completed(
                    old(self)@,
                    request,
                    answer_of(result),
                    capacity,
                    buffer is Some,
                    monotonic,
                    max_blend_bytes,
                    old(generations).next,
                );
                &&& final(self)@ == after
                &&& outcome == expected
                &&& final(generations).next == if used {
                    following(old(generations).next)
                } else {
                    old(generations).next
                }
            }),
    {
        let pending = match self.pending {
            Some(pending) => pending,
            None => return DecodeOutcome::Ignored,
        };
        if pending.request != request || !pending.dispatched {
            return DecodeOutcome::Ignored;
        }
        let frame = match result {
            Ok(frame) => frame,
            Err(_) => {
                self.pending = None;
                self.fail(request.image, monotonic, generations);
                return DecodeOutcome::Failed;
            },
        };
        if !valid_frame_sized(&frame, capacity, MAX_FRAME_BYTES) {
            self.pending = None;
            self.fail(request.image, monotonic, generations);
            return DecodeOutcome::Rejected;
        }
        let dissolving = self.would_dissolve(request, &frame, monotonic, max_blend_bytes);
        self.pending = None;
        if request.image == self.selected {
            self.retry_not_before = None;
        }
        if dissolving {
            if let (Some(buffer), Some(previous), Some(started_at)) = (
                buffer,
                self.presented.take(),
                pending.transition_started_at,
            ) {
                let blend = blend_reserved(&previous, &frame, buffer);
                proof {
                    lemma_blend_is_opaque(previous.pixels@, frame.pixels@, 0);
                }
                self.presented_image = None;
                self.transition = Some(
                    Transition {
                        from: previous,
                        to: frame,
                        blend,
                        to_image: request.image,
                        started_at,
                    },
                );
                self.advance_transition(monotonic);
                return DecodeOutcome::Transitioning;
            }
        }
        self.transition = None;
        self.presented = Some(frame);
        self.presented_image = Some(request.image);
        DecodeOutcome::Presented
    }

    /// Takes the answer to a request, blending at most `max_blend_bytes`.
    pub fn complete_decode_with_limit(
        &mut self,
        request: DecodeRequest,
        result: Result<RgbaFrame, ()>,
        monotonic: u128,
        max_blend_bytes: usize,
        generations: &mut Generations,
    ) -> (outcome: DecodeOutcome)
        requires
            old(self)@.wf(),
        ensures
            final(self)@.wf(),
            exists|capacity: usize, reserved: bool|
                {
                    let (after, expected, used) = #[trigger] completed(
                        old(self)@,
                        request,
                        answer_of(result),
                        capacity,
                        reserved,
                        monotonic,
                        max_blend_bytes,
                        old(generations).next,
                    );
                    &&& result matches Ok(frame) ==> capacity >= frame.pixels@.len()
                    &&& final(self)@ == after
                    &&& outcome == expected
                    &&& final(generations).next == if used {
                        following(old(generations).next)
                    } else {
                        old(generations).next
                    }
                },
    {
        let mut capacity: usize = 0;
        let mut buffer: Option<Vec<u8>> = None;
        if let Ok(frame) = &result {
            capacity = retained_bytes(frame);
            if self.would_dissolve(request, frame, monotonic, max_blend_bytes) {
                let mut reserved: Vec<u8> = Vec::new();
                if reserve_bytes(&mut reserved, frame.pixels.len()) {
                    buffer = Some(reserved);
                }
            }
        }
        self.complete_decode_given(
            request,
            result,
            capacity,
            buffer,
            monotonic,
            max_blend_bytes,
            generations,
        )
    }

    /// Takes the answer to a request.
    pub fn complete_decode(
        &mut self,
        request: DecodeRequest,
        result: Result<RgbaFrame, ()>,
        monotonic: u128,
        generations: &mut Generations,
    ) -> (outcome: DecodeOutcome)
        requires
            old(self)@.wf(),
        ensures
            final(self)@.wf(),
            exists|capacity: usize, reserved: bool|
                {
                    let (after, expected, used) = #[trigger] completed(
                        old(self)@,
                        request,
                        answer_of(result),
                        capacity,
                        reserved,
                        monotonic,
                        MAX_FRAME_BYTES,
                        old(generations).next,
                    );
                    &&& result matches Ok(frame) ==> capacity >= frame.pixels@.len()
                    &&& final(self)@ == after
                    &&& outcome == expected
                    &&& final(generations).next == if used {
                        following(old(generations).next)
                    } else {
                        old(generations).next
                    }
                },
    {
        self.complete_decode_with_limit(request, result, monotonic, MAX_FRAME_BYTES, generations)
    }

    /// Samples an active dissolve. Returns true only when the presented pixels
    /// changed, allowing static schedules to avoid a redraw loop.
    pub fn advance_transition(&mut self, monotonic: u128) -> (changed: bool)
        requires
            old(self)@.wf(),
        ensures
            final(self)@.wf(),
            (final(self)@, changed) == advanced(old(self)@, monotonic),
    {
        let elapsed: u128 = match &self.transition {
            Some(transition) => monotonic.saturating_sub(transition.started_at),
            None => return false,
        };
        if elapsed >= DISSOLVE_DURATION {
            return self.settle();
        }
        proof {
            lemma_weight(elapsed as int);
        }
        match self.transition.take() {
            Some(mut transition) => {
                let weight: u16 = (elapsed * 256 / DISSOLVE_DURATION) as u16;
                proof {
                    lemma_blend_is_opaque(
                        transition.from.pixels@,
                        transition.to.pixels@,
                        weight as int,
                    );
                }
                let changed = blend_into(
                    &transition.from,
                    &transition.to,
                    &mut transition.blend,
                    weight,
                );
                self.transition = Some(transition);
                changed
            },
            None => false,
        }
    }
}

/// How long it is to the next boundary.
fn next_boundary(points: &Vec<TimePoint>, clock: ClockSnapshot) -> (delay: u128)
    requires
        points@.len() > 0,
        clock.wf(),
    ensures
        delay == soonest(
            points@,
            super::clock::moment_of_day(clock),
            points@.len() as int,
        ),
{
    let now: u128 = time_of_day(clock);
    let day: u128 = DAY_SECONDS as u128 * SECOND;
    let mut best: u128 = 0;
    let mut count: usize = 0;
    while count < points.len()
        invariant
            count <= points@.len(),
            now == super::clock::moment_of_day(clock),
            now < day,
            day == DAY_SECONDS * SECOND,
            count > 0 ==> best == soonest(points@, now as int, count as int),
        decreases points@.len() - count,
    {
        let boundary: u128 = effective_boundary_second(points[count].time.bits) as u128 * SECOND;
        let delay: u128 = if boundary > now {
            boundary - now
        } else {
            day - now + boundary
        };
        if count == 0 || delay < best {
            best = delay;
        }
        count += 1;
    }
    best
}

// ---------------------------------------------------------------------------
// Laws
// ---------------------------------------------------------------------------

/// At most three frames are kept, none of them larger than the limit, and what
/// is on show is one of them.
pub proof fn law_at_most_three_frames_are_kept(playback: PlaybackModel)
    requires
        playback.wf(),
    ensures
        playback.frames().len() <= 3,
        forall|index: int|
            0 <= index < playback.frames().len() ==> (#[trigger] playback.frames()[index]).pixels.len()
                <= MAX_FRAME_BYTES,
        playback.frame() matches Some(frame) ==> playback.frames().contains(frame),
{
    if let Some(frame) = playback.frame() {
        match playback.transition {
            Some(_) => {
                assert(playback.frames()[2] == frame);
            },
            None => {
                assert(playback.frames()[0] == frame);
            },
        }
    }
}

/// Looking at the clock, answering a request, and sampling a dissolve keep
/// everything that holds of every playback.
pub proof fn law_every_step_keeps_playback_sound(
    playback: PlaybackModel,
    clock: ClockSnapshot,
    monotonic: u128,
    forced: bool,
    fresh: u64,
    request: DecodeRequest,
    result: Option<FrameModel>,
    capacity: usize,
    reserved: bool,
    max_blend_bytes: usize,
)
    requires
        playback.wf(),
        clock.wf(),
    ensures
        synchronized(playback, clock, monotonic, forced, fresh).0.wf(),
        advanced(playback, monotonic).0.wf(),
        completed(
            playback,
            request,
            result,
            capacity,
            reserved,
            monotonic,
            max_blend_bytes,
            fresh,
        ).0.wf(),
{
    lemma_advanced_keeps(playback, monotonic);
    if let Some(pending) = playback.pending {
        if let (Some(frame), Some(previous), Some(started_at)) = (
            result,
            playback.presented,
            pending.transition_started_at,
        ) {
            if presentable(frame, capacity, MAX_FRAME_BYTES) && same_size(previous, frame) {
                lemma_blend_is_opaque(previous.pixels, frame.pixels, 0);
                let dissolving = PlaybackModel {
                    pending: None,
                    presented: None,
                    presented_image: None,
                    transition: Some(
                        TransitionModel {
                            from: previous,
                            to: frame,
                            blend: FrameModel {
                                pixels: blended(previous.pixels, frame.pixels, 0),
                                ..frame
                            },
                            to_image: request.image,
                            started_at,
                        },
                    ),
                    ..playback
                };
                assert(dissolving.wf());
                lemma_advanced_keeps(dissolving, monotonic);
                lemma_advanced_keeps(
                    PlaybackModel { retry_not_before: None, ..dissolving },
                    monotonic,
                );
            }
        }
    }
}

proof fn lemma_advanced_keeps(playback: PlaybackModel, monotonic: u128)
    requires
        playback.wf(),
    ensures
        advanced(playback, monotonic).0.wf(),
{
    if let Some(transition) = playback.transition {
        let elapsed = span(transition.started_at, monotonic);
        if elapsed < DISSOLVE_DURATION {
            lemma_weight(elapsed);
            lemma_blend_is_opaque(
                transition.from.pixels,
                transition.to.pixels,
                dissolve_weight(elapsed),
            );
        }
    }
}

/// An answer to any request but the pending, dispatched one changes nothing.
pub proof fn law_stale_answers_change_nothing(
    playback: PlaybackModel,
    request: DecodeRequest,
    result: Option<FrameModel>,
    capacity: usize,
    reserved: bool,
    monotonic: u128,
    max_blend_bytes: usize,
    fresh: u64,
)
    requires
        !(playback.pending matches Some(pending) && pending.request == request
            && pending.dispatched),
    ensures
        completed(
            playback,
            request,
            result,
            capacity,
            reserved,
            monotonic,
            max_blend_bytes,
            fresh,
        ) == (playback, DecodeOutcome::Ignored, false),
{
}

/// A failed or rejected image never replaces the frame on show.
pub proof fn law_failures_keep_the_frame_on_show(
    playback: PlaybackModel,
    request: DecodeRequest,
    result: Option<FrameModel>,
    capacity: usize,
    reserved: bool,
    monotonic: u128,
    max_blend_bytes: usize,
    fresh: u64,
)
    ensures
        ({
            let (after, outcome, _) = completed(
                playback,
                request,
                result,
                capacity,
                reserved,
                monotonic,
                max_blend_bytes,
                fresh,
            );
            outcome == DecodeOutcome::Failed || outcome == DecodeOutcome::Rejected
                ==> after.frame() == playback.frame() && after.presented_image
                == playback.presented_image
        }),
{
}

/// Without motion images are never blended, whatever happens.
pub proof fn law_reduced_motion_never_blends(
    playback: PlaybackModel,
    clock: ClockSnapshot,
    monotonic: u128,
    forced: bool,
    fresh: u64,
    request: DecodeRequest,
    result: Option<FrameModel>,
    capacity: usize,
    reserved: bool,
    max_blend_bytes: usize,
)
    requires
        playback.wf(),
        clock.wf(),
        playback.still(),
    ensures
        playback.transition is None,
        ({
            let after = synchronized(playback, clock, monotonic, forced, fresh).0;
            after.still() && after.transition is None
        }),
        ({
            let (after, outcome, _) = completed(
                playback,
                request,
                result,
                capacity,
                reserved,
                monotonic,
                max_blend_bytes,
                fresh,
            );
            after.still() && after.transition is None && outcome != DecodeOutcome::Transitioning
        }),
        advanced(playback, monotonic) == (playback, false),
{
    law_every_step_keeps_playback_sound(
        playback,
        clock,
        monotonic,
        forced,
        fresh,
        request,
        result,
        capacity,
        reserved,
        max_blend_bytes,
    );
}

/// A dissolve starts with the first image and ends with the second.
pub proof fn law_dissolves_lead_from_one_image_to_the_other(from: Seq<u8>, to: Seq<u8>)
    requires
        from.len() == to.len(),
    ensures
        dissolve_weight(0) == 0,
        dissolve_weight(DISSOLVE_DURATION as int) == 256,
        blended(from, to, 0) == from,
        blended(from, to, 256) == to,
{
    assert forall|index: int| 0 <= index < to.len() implies blended(from, to, 0)[index]
        == from[index] && blended(from, to, 256)[index] == to[index] by {
        assert(from[index] * (256 - 0int) + to[index] * 0int + 128 == from[index] * 256 + 128)
            by (nonlinear_arith);
        assert(from[index] * (256 - 256int) + to[index] * 256int + 128 == to[index] * 256 + 128)
            by (nonlinear_arith);
    }
    assert(blended(from, to, 0) =~= from);
    assert(blended(from, to, 256) =~= to);
}

/// Looking at the clock selects the point in effect at that moment, however much
/// time passed, and looking again at the same moment changes nothing more.
pub proof fn law_looking_twice_changes_nothing_more(
    playback: PlaybackModel,
    clock: ClockSnapshot,
    monotonic: u128,
    forced: bool,
    fresh: u64,
    later: u64,
)
    requires
        playback.wf(),
        clock.wf(),
    ensures
        ({
            let after = synchronized(playback, clock, monotonic, forced, fresh).0;
            let (again, outcome, used) = synchronized(after, clock, monotonic, false, later);
            &&& playback.points matches Some(points) ==> after.selected == point_at(
                points,
                clock,
            ).image
            &&& again == after
            &&& !used
            &&& outcome == (SynchronizeOutcome {
                selection_changed: false,
                discontinuity: false,
                presentation_changed: false,
            })
        }),
{
    let after = synchronized(playback, clock, monotonic, forced, fresh).0;
    assert(!discontinuous(after.last_clock, after.last_monotonic, clock, monotonic));
}

/// A failed image is left alone for a minute, unless another image is selected
/// or a clock jump finds its request still open.
pub proof fn law_failed_images_wait_before_a_retry(
    playback: PlaybackModel,
    clock: ClockSnapshot,
    monotonic: u128,
    forced: bool,
    fresh: u64,
    failed_at: u128,
)
    requires
        playback.wf(),
        clock.wf(),
        playback.pending is None,
        playback.retry_not_before == retry_moment(failed_at),
        failed_at + RESYNCHRONIZE_AFTER <= LAST_MOMENT,
        monotonic < failed_at + RESYNCHRONIZE_AFTER,
        playback.choice(clock) == playback.selected,
    ensures
        synchronized(playback, clock, monotonic, forced, fresh).0.pending is None,
        !synchronized(playback, clock, monotonic, forced, fresh).2,
{
}

proof fn lemma_wait(points: Seq<TimePoint>, now: int, count: int)
    requires
        0 <= now < DAY_SECONDS * SECOND,
        1 <= count <= points.len(),
    ensures
        0 < soonest(points, now, count),
    decreases count,
{
    super::fraction::lemma_boundaries_lie_in_the_day(points[count - 1].time.bits);
    if count > 1 {
        lemma_wait(points, now, count - 1);
    }
}

/// The clock is looked at again within a minute wherever there is anything to
/// wait for, and at once only where a retry is due.
pub proof fn law_waking_is_timely(playback: PlaybackModel, clock: ClockSnapshot, monotonic: u128)
    requires
        playback.wf(),
        clock.wf(),
    ensures
        playback.points is Some ==> wake(playback, clock, monotonic) is Some,
        wake(playback, clock, monotonic) matches Some(delay) ==> {
            &&& 0 <= delay <= RESYNCHRONIZE_AFTER
            &&& delay == 0 ==> playback.lacking() && playback.due(monotonic)
        },
{
    if let Some(points) = playback.points {
        lemma_wait(points, super::clock::moment_of_day(clock), points.len() as int);
    }
}

// ---------------------------------------------------------------------------
// Numbers
// ---------------------------------------------------------------------------

/// What happens to one of the playbacks that a process runs.
pub enum RunStep {
    /// A new playback asks for an image.
    Start { blank: PlaybackModel, image: ImageReference },
    HandOut { playback: int },
    Synchronize { playback: int, clock: ClockSnapshot, monotonic: u128, forced: bool },
    Complete {
        playback: int,
        request: DecodeRequest,
        result: Option<FrameModel>,
        capacity: usize,
        reserved: bool,
        monotonic: u128,
        max_blend_bytes: usize,
    },
    Advance { playback: int, monotonic: u128 },
}

/// The playbacks of a process, the number that is given next, and the requests that
/// were handed out, in order.
pub struct Run {
    pub next: u64,
    pub playbacks: Seq<PlaybackModel>,
    pub handed: Seq<DecodeRequest>,
}

/// A process that has no playback yet.
pub open spec fn fresh_run() -> Run {
    Run { next: 1, playbacks: Seq::empty(), handed: Seq::empty() }
}

impl Run {
    /// The run with one playback in a new state.
    pub open spec fn with(self, playback: int, after: PlaybackModel, numbered: bool) -> Run {
        Run {
            next: if numbered {
                following(self.next)
            } else {
                self.next
            },
            playbacks: self.playbacks.update(playback, after),
            handed: self.handed,
        }
    }

    /// Whether a step takes a number.
    pub open spec fn numbers(self, step: RunStep) -> bool {
        match step {
            RunStep::Start { .. } => true,
            RunStep::HandOut { .. } => false,
            RunStep::Synchronize { playback, clock, monotonic, forced } => synchronized(
                self.playbacks[playback],
                clock,
                monotonic,
                forced,
                self.next,
            ).2,
            RunStep::Complete {
                playback,
                request,
                result,
                capacity,
                reserved,
                monotonic,
                max_blend_bytes,
            } => completed(
                self.playbacks[playback],
                request,
                result,
                capacity,
                reserved,
                monotonic,
                max_blend_bytes,
                self.next,
            ).2,
            RunStep::Advance { .. } => false,
        }
    }

    /// Whether a step concerns a playback that is there, and finds a number that was
    /// not given yet where it takes one.
    pub open spec fn allows(self, step: RunStep) -> bool {
        &&& match step {
            RunStep::Start { .. } => true,
            RunStep::HandOut { playback }
            | RunStep::Synchronize { playback, .. }
            | RunStep::Complete { playback, .. }
            | RunStep::Advance { playback, .. } => 0 <= playback < self.playbacks.len(),
        }
        &&& self.numbers(step) ==> self.next != 0
    }

    /// Where a step leads.
    pub open spec fn after(self, step: RunStep) -> Run {
        match step {
            RunStep::Start { blank, image } => Run {
                next: following(self.next),
                playbacks: self.playbacks.push(blank.requesting(image, self.next, None)),
                handed: self.handed,
            },
            RunStep::HandOut { playback } => {
                let (after, request) = handed_out(self.playbacks[playback]);
                Run {
                    handed: match request {
                        Some(request) => self.handed.push(request),
                        None => self.handed,
                    },
                    ..self.with(playback, after, false)
                }
            },
            RunStep::Synchronize { playback, clock, monotonic, forced } => self.with(
                playback,
                synchronized(self.playbacks[playback], clock, monotonic, forced, self.next).0,
                self.numbers(step),
            ),
            RunStep::Complete {
                playback,
                request,
                result,
                capacity,
                reserved,
                monotonic,
                max_blend_bytes,
            } => self.with(
                playback,
                completed(
                    self.playbacks[playback],
                    request,
                    result,
                    capacity,
                    reserved,
                    monotonic,
                    max_blend_bytes,
                    self.next,
                ).0,
                self.numbers(step),
            ),
            RunStep::Advance { playback, monotonic } => self.with(
                playback,
                advanced(self.playbacks[playback], monotonic).0,
                false,
            ),
        }
    }

    /// The run after several steps.
    pub open spec fn after_all(self, steps: Seq<RunStep>) -> Run
        decreases steps.len(),
    {
        if steps.len() == 0 {
            self
        } else {
            self.after_all(steps.drop_last()).after(steps.last())
        }
    }

    /// Whether every one of several steps is allowed where it is taken. Fewer than
    /// all numbers are then ever given.
    pub open spec fn allows_all(self, steps: Seq<RunStep>) -> bool
        decreases steps.len(),
    {
        steps.len() > 0 ==> self.allows_all(steps.drop_last()) && self.after_all(
            steps.drop_last(),
        ).allows(steps.last())
    }

    /// Whether a number was given.
    pub open spec fn given(self, number: u64) -> bool {
        0 < number && (self.next == 0 || number < self.next)
    }

    /// Whether a playback waits for an answer under this number.
    pub open spec fn awaits(self, playback: int, number: u64) -> bool {
        &&& 0 <= playback < self.playbacks.len()
        &&& self.playbacks[playback].pending matches Some(pending) && pending.request.generation
            == number
    }

    /// What numbering keeps: whatever is waited for or was handed out was numbered,
    /// no two playbacks wait under one number, nothing that was handed out is handed
    /// out again, and no two requests that were handed out share a number.
    pub open spec fn sound(self) -> bool {
        &&& forall|playback: int, number: u64|
            #[trigger] self.awaits(playback, number) ==> self.given(number)
        &&& forall|one: int, other: int, number: u64|
            #[trigger] self.awaits(one, number) && #[trigger] self.awaits(other, number) ==> one
                == other
        &&& forall|index: int|
            0 <= index < self.handed.len() ==> self.given(
                (#[trigger] self.handed[index]).generation,
            )
        &&& forall|playback: int, index: int|
            0 <= index < self.handed.len() && #[trigger] self.awaits(
                playback,
                (#[trigger] self.handed[index]).generation,
            ) ==> self.playbacks[playback].pending->Some_0.dispatched
        &&& forall|one: int, other: int|
            0 <= one < other < self.handed.len() ==> (#[trigger] self.handed[one]).generation != (
            #[trigger] self.handed[other]).generation
    }
}

/// A step leaves a playback waiting for what it waited for, for nothing, or for a
/// request under the next number that was not handed out.
proof fn lemma_step_waits(run: Run, step: RunStep, playback: int, number: u64)
    requires
        run.allows(step),
        run.after(step).awaits(playback, number),
    ensures
        run.awaits(playback, number) || run.numbers(step) && number == run.next
            && !run.after(step).playbacks[playback].pending->Some_0.dispatched && match step {
            RunStep::Start { .. } => playback == run.playbacks.len(),
            RunStep::HandOut { playback: stepped }
            | RunStep::Synchronize { playback: stepped, .. }
            | RunStep::Complete { playback: stepped, .. }
            | RunStep::Advance { playback: stepped, .. } => playback == stepped,
        },
        run.awaits(playback, number) && run.after(step).playbacks[playback].pending
            != run.playbacks[playback].pending ==> step == (RunStep::HandOut { playback }) && run.after(
            step,
        ).playbacks[playback].pending->Some_0.dispatched
            || number == run.next,
{
}

proof fn lemma_step_keeps_numbers(run: Run, step: RunStep)
    requires
        run.sound(),
        run.allows(step),
    ensures
        run.after(step).sound(),
{
    let after = run.after(step);
    assert forall|number: u64| run.given(number) implies #[trigger] after.given(number) by {}
    assert(run.numbers(step) ==> after.given(run.next) && !run.given(run.next));
    assert forall|playback: int, number: u64| #[trigger] after.awaits(
        playback,
        number,
    ) implies after.given(number) by {
        lemma_step_waits(run, step, playback, number);
    }
    assert forall|one: int, other: int, number: u64| #[trigger] after.awaits(one, number)
        && #[trigger] after.awaits(other, number) implies one == other by {
        lemma_step_waits(run, step, one, number);
        lemma_step_waits(run, step, other, number);
    }
    assert forall|index: int| 0 <= index < after.handed.len() implies after.given(
        (#[trigger] after.handed[index]).generation,
    ) by {
        if index < run.handed.len() {
            assert(after.handed[index] == run.handed[index]);
        } else if let RunStep::HandOut { playback } = step {
            assert(run.awaits(playback, after.handed[index].generation));
        }
    }
    assert forall|playback: int, index: int|
        0 <= index < after.handed.len() && #[trigger] after.awaits(
            playback,
            (#[trigger] after.handed[index]).generation,
        ) implies after.playbacks[playback].pending->Some_0.dispatched by {
        let number = after.handed[index].generation;
        lemma_step_waits(run, step, playback, number);
        if index < run.handed.len() {
            assert(after.handed[index] == run.handed[index]);
            assert(run.given(number));
            assert(run.awaits(playback, number));
        } else if let RunStep::HandOut { playback: stepped } = step {
            assert(run.awaits(stepped, number));
            assert(run.awaits(playback, number));
        }
    }
    assert forall|one: int, other: int| 0 <= one < other < after.handed.len() implies (
    #[trigger] after.handed[one]).generation != (#[trigger] after.handed[other]).generation by {
        assert(after.handed[one] == run.handed[one]);
        if other < run.handed.len() {
            assert(after.handed[other] == run.handed[other]);
        } else if let RunStep::HandOut { playback } = step {
            if run.handed[one].generation == after.handed[other].generation {
                assert(run.awaits(playback, run.handed[one].generation));
            }
        }
    }
}

proof fn lemma_steps_keep_numbers(run: Run, steps: Seq<RunStep>)
    requires
        run.sound(),
        run.allows_all(steps),
    ensures
        run.after_all(steps).sound(),
    decreases steps.len(),
{
    if steps.len() > 0 {
        lemma_steps_keep_numbers(run, steps.drop_last());
        lemma_step_keeps_numbers(run.after_all(steps.drop_last()), steps.last());
    }
}

/// No two requests that are ever handed out in a process share a number, whichever
/// playbacks they are of. So an answer to one of them is ignored where another is
/// waited for, though it be for the same image.
pub proof fn law_requests_never_share_a_number(steps: Seq<RunStep>, one: int, other: int)
    requires
        fresh_run().allows_all(steps),
        0 <= one < fresh_run().after_all(steps).handed.len(),
        0 <= other < fresh_run().after_all(steps).handed.len(),
        one != other,
    ensures
        ({
            let handed = fresh_run().after_all(steps).handed;
            &&& handed[one].generation != handed[other].generation
            &&& forall|
                playback: PlaybackModel,
                result: Option<FrameModel>,
                capacity: usize,
                reserved: bool,
                monotonic: u128,
                max_blend_bytes: usize,
                fresh: u64,
            |
                (playback.pending matches Some(pending) && pending.request == handed[other])
                    ==> #[trigger] completed(
                    playback,
                    handed[one],
                    result,
                    capacity,
                    reserved,
                    monotonic,
                    max_blend_bytes,
                    fresh,
                ) == (playback, DecodeOutcome::Ignored, false)
        }),
{
    assert(fresh_run().sound());
    lemma_steps_keep_numbers(fresh_run(), steps);
    let handed = fresh_run().after_all(steps).handed;
    if one < other {
        assert(handed[one].generation != handed[other].generation);
    } else {
        assert(handed[other].generation != handed[one].generation);
    }
}

/// A number that nothing waits under any more is never waited under again.
proof fn lemma_numbers_do_not_return(run: Run, steps: Seq<RunStep>, number: u64)
    requires
        run.sound(),
        run.allows_all(steps),
        run.given(number),
        forall|playback: int| !#[trigger] run.awaits(playback, number),
    ensures
        run.after_all(steps).given(number),
        forall|playback: int| !#[trigger] run.after_all(steps).awaits(playback, number),
    decreases steps.len(),
{
    if steps.len() > 0 {
        lemma_numbers_do_not_return(run, steps.drop_last(), number);
        let before = run.after_all(steps.drop_last());
        assert forall|playback: int| !#[trigger] run.after_all(steps).awaits(playback, number) by {
            if run.after_all(steps).awaits(playback, number) {
                lemma_step_waits(before, steps.last(), playback, number);
            }
        }
    }
}

/// After a resume, a request for the selected image that was handed out and not
/// answered is given up for good: it is asked for again under another number, any
/// answer to the old request is ignored from then on, whatever else happens, and a
/// valid answer to the new one is shown at once and never blended in.
pub proof fn law_resuming_replaces_the_pending_request(
    steps: Seq<RunStep>,
    playback: int,
    clock: ClockSnapshot,
    monotonic: u128,
    more: Seq<RunStep>,
)
    requires
        fresh_run().allows_all(steps),
        0 <= playback < fresh_run().after_all(steps).playbacks.len(),
        fresh_run().after_all(steps).playbacks[playback].pending matches Some(pending)
            && pending.dispatched && pending.request.image == fresh_run().after_all(
            steps,
        ).playbacks[playback].selected,
        fresh_run().after_all(steps).next != 0,
        fresh_run().after_all(steps).after(
            RunStep::Synchronize { playback, clock, monotonic, forced: true },
        ).allows_all(more),
    ensures
        ({
            let run = fresh_run().after_all(steps);
            let old = run.playbacks[playback].pending->Some_0.request;
            let (after, outcome, numbered) = synchronized(
                run.playbacks[playback],
                clock,
                monotonic,
                true,
                run.next,
            );
            let (waiting, request) = handed_out(after);
            let later = run.after(
                RunStep::Synchronize { playback, clock, monotonic, forced: true },
            ).after_all(more);
            &&& outcome.discontinuity
            &&& numbered
            &&& request matches Some(new) && new.generation != old.generation && new.image
                == after.selected
            &&& forall|
                frame: FrameModel,
                capacity: usize,
                reserved: bool,
                moment: u128,
                max_blend_bytes: usize,
                fresh: u64,
            |
                presentable(frame, capacity, MAX_FRAME_BYTES) ==> (#[trigger] completed(
                    waiting,
                    request->Some_0,
                    Some(frame),
                    capacity,
                    reserved,
                    moment,
                    max_blend_bytes,
                    fresh,
                )).1 == DecodeOutcome::Presented
            &&& forall|
                index: int,
                result: Option<FrameModel>,
                capacity: usize,
                reserved: bool,
                moment: u128,
                max_blend_bytes: usize,
                fresh: u64,
            |
                0 <= index < later.playbacks.len() ==> (#[trigger] completed(
                    later.playbacks[index],
                    old,
                    result,
                    capacity,
                    reserved,
                    moment,
                    max_blend_bytes,
                    fresh,
                )) == (later.playbacks[index], DecodeOutcome::Ignored, false)
        }),
{
    assert(fresh_run().sound());
    lemma_steps_keep_numbers(fresh_run(), steps);
    let run = fresh_run().after_all(steps);
    let old = run.playbacks[playback].pending->Some_0.request;
    let step = RunStep::Synchronize { playback, clock, monotonic, forced: true };
    assert(run.awaits(playback, old.generation));
    assert(run.numbers(step));
    assert(run.allows(step));
    lemma_step_keeps_numbers(run, step);
    let resumed = run.after(step);
    assert(resumed.given(old.generation));
    assert forall|index: int| !#[trigger] resumed.awaits(index, old.generation) by {
        if resumed.awaits(index, old.generation) {
            lemma_step_waits(run, step, index, old.generation);
            assert(run.awaits(index, old.generation));
            assert(index == playback);
        }
    }
    lemma_numbers_do_not_return(resumed, more, old.generation);
    let later = resumed.after_all(more);
    assert forall|
        index: int,
        result: Option<FrameModel>,
        capacity: usize,
        reserved: bool,
        moment: u128,
        max_blend_bytes: usize,
        fresh: u64,
    |
        0 <= index < later.playbacks.len() implies (#[trigger] completed(
        later.playbacks[index],
        old,
        result,
        capacity,
        reserved,
        moment,
        max_blend_bytes,
        fresh,
    )) == (later.playbacks[index], DecodeOutcome::Ignored, false) by {
        assert(!later.awaits(index, old.generation));
    }
}

/// A blend is the weighted mean of its two channels, to the nearest step: `weight` parts
/// in 256 of the second.
pub proof fn law_blends_are_weighted_means(from: u8, to: u8, weight: int)
    requires
        0 <= weight <= 256,
    ensures
        -128 <= 256 * blended_channel(from, to, weight) - (from * (256 - weight) + to * weight)
            <= 128,
        from <= to ==> from <= blended_channel(from, to, weight) <= to,
        to <= from ==> to <= blended_channel(from, to, weight) <= from,
        blended_channel(from, to, 0) == from,
        blended_channel(from, to, 256) == to,
{
    let mean = from * (256 - weight) + to * weight;
    assert(0 <= mean <= 255 * 256) by (nonlinear_arith)
        requires
            mean == from * (256 - weight) + to * weight,
            0 <= from <= 255,
            0 <= to <= 255,
            0 <= weight <= 256,
    ;
    assert(from <= to ==> 256 * from <= mean <= 256 * to) by (nonlinear_arith)
        requires
            mean == from * (256 - weight) + to * weight,
            0 <= weight <= 256,
    ;
    assert(to <= from ==> 256 * to <= mean <= 256 * from) by (nonlinear_arith)
        requires
            mean == from * (256 - weight) + to * weight,
            0 <= weight <= 256,
    ;
}

/// A later sample of a dissolve is never further from the new image than an earlier one.
pub proof fn law_dissolves_never_go_back(from: u8, to: u8, earlier: int, later: int)
    requires
        0 <= earlier <= later <= 256,
    ensures
        from <= to ==> blended_channel(from, to, earlier) <= blended_channel(from, to, later) <= to,
        to <= from ==> to <= blended_channel(from, to, later) <= blended_channel(from, to, earlier),
{
    law_blends_are_weighted_means(from, to, earlier);
    law_blends_are_weighted_means(from, to, later);
    let before = from * (256 - earlier) + to * earlier;
    let after = from * (256 - later) + to * later;
    assert(from <= to ==> before <= after) by (nonlinear_arith)
        requires
            before == from * (256 - earlier) + to * earlier,
            after == from * (256 - later) + to * later,
            earlier <= later,
    ;
    assert(to <= from ==> after <= before) by (nonlinear_arith)
        requires
            before == from * (256 - earlier) + to * earlier,
            after == from * (256 - later) + to * later,
            earlier <= later,
    ;
    assert(0 <= before <= 255 * 256 && 0 <= after <= 255 * 256) by (nonlinear_arith)
        requires
            before == from * (256 - earlier) + to * earlier,
            after == from * (256 - later) + to * later,
            0 <= from <= 255,
            0 <= to <= 255,
            0 <= earlier <= later <= 256,
    ;
}

/// Frames are blended channel by channel, each with the channel at its own place.
pub proof fn law_frames_are_blended_channel_by_channel(
    from: Seq<u8>,
    to: Seq<u8>,
    weight: int,
    index: int,
)
    requires
        0 <= weight <= 256,
        from.len() == to.len(),
        0 <= index < to.len(),
    ensures
        blended(from, to, weight).len() == to.len(),
        -128 <= 256 * blended(from, to, weight)[index] - (from[index] * (256 - weight) + to[index]
            * weight) <= 128,
{
    law_blends_are_weighted_means(from[index], to[index], weight);
}

// ---------------------------------------------------------------------------
// What is on show, and when
// ---------------------------------------------------------------------------

/// Two seconds lead from one image to the other, in equal steps: the weight of the second
/// image is its share of 256 parts, rounded down.
pub proof fn law_dissolves_take_two_seconds(elapsed: int)
    requires
        0 <= elapsed <= 2_000_000_000,
    ensures
        256 * elapsed - 2_000_000_000 < dissolve_weight(elapsed) * 2_000_000_000 <= 256 * elapsed,
        0 <= dissolve_weight(elapsed) <= 256,
{
    assert(elapsed * 256 == 256 * elapsed) by (nonlinear_arith);
}

/// Sampling a dissolve shows what the moment asks for: before two seconds have passed a
/// blend of the two images, as far along as the time, and then the second image alone.
/// Nothing else changes, and a change is told where what is on show changed.
pub proof fn law_a_dissolve_is_sampled_at_its_moment(
    playback: PlaybackModel,
    monotonic: u128,
    index: int,
)
    requires
        playback.wf(),
        playback.transition is Some,
    ensures
        ({
            let transition = playback.transition->Some_0;
            let passed = monotonic - transition.started_at;
            let elapsed = if passed > 0 {
                passed
            } else {
                0
            };
            let (after, changed) = advanced(playback, monotonic);
            let shown = after.frame()->Some_0;
            let weight = 256 * elapsed / 2_000_000_000;
            &&& after.frame() is Some
            &&& shown.width == transition.to.width && shown.height == transition.to.height
            &&& shown.pixels.len() == transition.to.pixels.len()
            &&& changed <==> shown.pixels != transition.blend.pixels
            &&& after.transition is None <==> elapsed >= 2_000_000_000
            &&& elapsed >= 2_000_000_000 ==> shown == transition.to && after.presented_image
                == Some(transition.to_image)
            &&& elapsed < 2_000_000_000 && 0 <= index < shown.pixels.len() ==> -128 <= 256
                * shown.pixels[index] - (transition.from.pixels[index] * (256 - weight)
                + transition.to.pixels[index] * weight) <= 128
            &&& after.transition matches Some(still) ==> still.from == transition.from && still.to
                == transition.to && still.started_at == transition.started_at && still.to_image
                == transition.to_image
            &&& after.pending == playback.pending && after.selected == playback.selected
                && after.generation == playback.generation && after.retry_not_before
                == playback.retry_not_before && after.points == playback.points
        }),
        advanced(playback.settled(), monotonic) == (playback.settled(), false),
{
    let transition = playback.transition->Some_0;
    let elapsed = span(transition.started_at, monotonic);
    assert(elapsed * 256 == 256 * elapsed) by (nonlinear_arith);
    if elapsed < 2_000_000_000 {
        law_dissolves_take_two_seconds(elapsed);
        if 0 <= index < transition.to.pixels.len() {
            law_blends_are_weighted_means(
                transition.from.pixels[index],
                transition.to.pixels[index],
                dissolve_weight(elapsed),
            );
        }
    }
}

/// A frame may be presented where it has as many pixels as it says, at least one, all of
/// them opaque, and takes no more memory than allowed.
pub proof fn law_only_whole_and_opaque_frames_are_presented(
    frame: FrameModel,
    capacity: usize,
    limit: usize,
)
    ensures
        presentable(frame, capacity, limit) <==> {
            &&& frame.width >= 1
            &&& frame.height >= 1
            &&& frame.pixels.len() == 4 * frame.width * frame.height
            &&& frame.pixels.len() <= limit
            &&& capacity <= limit
            &&& forall|pixel: int|
                0 <= pixel && 4 * pixel + 3 < frame.pixels.len() ==> #[trigger] frame.pixels[4
                    * pixel + 3] == 0xff
        },
{
}

/// The answer to the request that is waited for is shown: at once, or blended in where
/// another frame of its size is on show, the image took effect less than two seconds ago,
/// and there is memory for the blend.
pub proof fn law_answers_are_shown(
    playback: PlaybackModel,
    frame: FrameModel,
    capacity: usize,
    reserved: bool,
    monotonic: u128,
    max_blend_bytes: usize,
    fresh: u64,
)
    requires
        playback.wf(),
        playback.pending matches Some(pending) && pending.dispatched,
        presentable(frame, capacity, MAX_FRAME_BYTES),
    ensures
        ({
            let pending = playback.pending->Some_0;
            let (after, outcome, numbered) = completed(
                playback,
                pending.request,
                Some(frame),
                capacity,
                reserved,
                monotonic,
                max_blend_bytes,
                fresh,
            );
            let blends = reserved && frame.pixels.len() <= max_blend_bytes && (playback.presented
                matches Some(previous) && previous.width == frame.width && previous.height
                == frame.height) && (pending.transition_started_at matches Some(moment) && monotonic
                < moment + 2_000_000_000);
            &&& !numbered
            &&& after.pending is None
            &&& after.selected == playback.selected && after.points == playback.points
            &&& pending.request.image == playback.selected ==> after.retry_not_before is None
            &&& pending.request.image != playback.selected ==> after.retry_not_before
                == playback.retry_not_before
            &&& blends ==> outcome == DecodeOutcome::Transitioning && (after.transition
                matches Some(transition) && transition.from == playback.presented->Some_0
                && transition.to == frame && transition.to_image == pending.request.image
                && transition.started_at == pending.transition_started_at->Some_0)
            &&& !blends ==> outcome == DecodeOutcome::Presented && after.frame() == Some(frame)
                && after.presented_image == Some(pending.request.image)
        }),
{
}

/// An image that cannot be had is left alone for a minute. Where nothing is on show, the
/// primary image is asked for in its place, unless it is the one that failed.
pub proof fn law_the_primary_image_stands_in(
    playback: PlaybackModel,
    result: Option<FrameModel>,
    capacity: usize,
    reserved: bool,
    monotonic: u128,
    max_blend_bytes: usize,
    fresh: u64,
)
    requires
        playback.pending matches Some(pending) && pending.dispatched,
        result matches Some(frame) ==> !presentable(frame, capacity, MAX_FRAME_BYTES),
    ensures
        ({
            let failed = playback.pending->Some_0.request;
            let (after, outcome, numbered) = completed(
                playback,
                failed,
                result,
                capacity,
                reserved,
                monotonic,
                max_blend_bytes,
                fresh,
            );
            let stands_in = playback.presented is None && failed.image != playback.primary;
            &&& result is None <==> outcome == DecodeOutcome::Failed
            &&& result is Some <==> outcome == DecodeOutcome::Rejected
            &&& numbered <==> stands_in
            &&& after.pending is Some <==> stands_in
            &&& after.pending matches Some(pending) ==> pending.request == (DecodeRequest {
                generation: fresh,
                image: playback.primary,
            }) && !pending.dispatched && pending.transition_started_at is None && after.generation
                == fresh
            &&& monotonic <= LAST_MOMENT - 60_000_000_000 ==> after.retry_not_before == Some(
                (monotonic + 60_000_000_000) as u128,
            )
            &&& after.presented == playback.presented && after.transition == playback.transition
        }),
{
}

/// A clock that selects another image asks for it under a new number, leaves on show what
/// is there, and blends it in unless the clocks jumped or nothing is to move.
pub proof fn law_another_selection_is_asked_for(
    playback: PlaybackModel,
    clock: ClockSnapshot,
    monotonic: u128,
    forced: bool,
    fresh: u64,
)
    requires
        playback.wf(),
        playback.points matches Some(points) && point_at(points, clock).image != playback.selected,
    ensures
        ({
            let points = playback.points->Some_0;
            let jumped = forced || discontinuous(
                playback.last_clock,
                playback.last_monotonic,
                clock,
                monotonic,
            );
            let (after, outcome, numbered) = synchronized(
                playback,
                clock,
                monotonic,
                forced,
                fresh,
            );
            &&& numbered
            &&& outcome.selection_changed && !outcome.presentation_changed && outcome.discontinuity
                == jumped
            &&& after.selected == point_at(points, clock).image
            &&& after.frame() == playback.frame()
            &&& after.transition is None
            &&& after.retry_not_before is None
            &&& after.last_clock == clock && after.last_monotonic == monotonic
            &&& after.pending == Some(
                PendingDecode {
                    request: DecodeRequest { generation: fresh, image: after.selected },
                    transition_started_at: if jumped || playback.reduced_motion {
                        None
                    } else {
                        took_effect(points, clock, monotonic)
                    },
                    dispatched: false,
                },
            )
        }),
{
}

/// A clock that selects the same image leaves a dissolve and a request alone as long as
/// the clocks agree. Where they do not, a dissolve is over, and a request for the image is
/// made anew. What is neither on show nor under way is asked for as soon as it may be.
pub proof fn law_the_same_selection_goes_on(
    playback: PlaybackModel,
    clock: ClockSnapshot,
    monotonic: u128,
    forced: bool,
    fresh: u64,
)
    requires
        playback.wf(),
        playback.points matches Some(points) ==> point_at(points, clock).image == playback.selected,
    ensures
        ({
            let jumped = forced || discontinuous(
                playback.last_clock,
                playback.last_monotonic,
                clock,
                monotonic,
            );
            let (after, outcome, numbered) = synchronized(
                playback,
                clock,
                monotonic,
                forced,
                fresh,
            );
            let missing = playback.pending is None && playback.transition is None
                && playback.presented_image != Some(playback.selected);
            let over = playback.transition->Some_0;
            let missed = playback.pending is None && if playback.transition is Some {
                over.to_image != playback.selected
            } else {
                playback.presented_image != Some(playback.selected)
            };
            let may = playback.retry_not_before matches Some(moment) ==> moment <= monotonic;
            let renewed = playback.pending matches Some(pending) && pending.request.image
                == playback.selected;
            &&& !outcome.selection_changed && outcome.discontinuity == jumped
            &&& after.selected == playback.selected
            &&& after.last_clock == clock && after.last_monotonic == monotonic
            &&& numbered ==> (after.pending matches Some(pending) && pending.request == (
            DecodeRequest { generation: fresh, image: playback.selected }) && !pending.dispatched
                && (jumped ==> pending.transition_started_at is None))
            &&& !numbered ==> after.pending == playback.pending
            &&& !jumped ==> {
                &&& numbered <==> missing && may
                &&& after.frame() == playback.frame() && after.transition == playback.transition
                &&& !outcome.presentation_changed
                &&& numbered ==> after.pending->Some_0.transition_started_at
                    == playback.blend_start(clock, monotonic)
            }
            &&& jumped ==> {
                &&& numbered <==> renewed || missed && may
                &&& after.transition is None
                &&& playback.transition is Some ==> after.frame() == Some(over.to)
                    && after.presented_image == Some(over.to_image)
                &&& playback.transition is None ==> after.frame() == playback.frame()
                &&& outcome.presentation_changed <==> playback.transition is Some
                    && over.blend.pixels != over.to.pixels
            }
        }),
{
}

/// Clocks jumped where the offset from UTC changed, the monotonic clock went back, or the
/// two clocks differ by more than a second in how much time passed.
pub proof fn law_clocks_may_differ_by_a_second(
    previous: ClockSnapshot,
    previous_monotonic: u128,
    clock: ClockSnapshot,
    monotonic: u128,
)
    ensures
        discontinuous(previous, previous_monotonic, clock, monotonic) <==> {
            let wall = super::clock::utc_moment(clock) - super::clock::utc_moment(previous);
            let passed = monotonic - previous_monotonic;
            ||| clock.utc_offset_seconds != previous.utc_offset_seconds
            ||| passed < 0
            ||| wall - passed > 1_000_000_000
            ||| passed - wall > 1_000_000_000
        },
{
}

/// How long an image was in effect is the time of day less its boundary, round the clock,
/// and less than a day or a day at most.
pub proof fn law_images_take_effect_at_their_boundary(
    points: Seq<TimePoint>,
    clock: ClockSnapshot,
    monotonic: u128,
)
    requires
        clock.wf(),
        points.len() > 0,
    ensures
        ({
            let day = 86_400_000_000_000int;
            let now = super::clock::moment_of_day(clock);
            let boundary = super::fraction::boundary_second(point_at(points, clock).time.bits)
                * 1_000_000_000;
            let elapsed = in_effect(points, clock);
            &&& 0 <= elapsed <= day
            &&& elapsed == now - boundary || elapsed == now - boundary + day
            &&& took_effect(points, clock, monotonic) == if monotonic >= elapsed {
                Some((monotonic - elapsed) as u128)
            } else {
                None
            }
        }),
{
    super::fraction::lemma_boundaries_lie_in_the_day(point_at(points, clock).time.bits);
}

/// A request is handed out once, and handing it out changes nothing else.
pub proof fn law_requests_are_handed_out_once(playback: PlaybackModel)
    ensures
        handed_out(playback).1 is Some <==> (playback.pending matches Some(pending)
            && !pending.dispatched),
        handed_out(playback).1 matches Some(request) ==> playback.pending->Some_0.request == request,
        handed_out(handed_out(playback).0).1 is None,
        handed_out(playback).0.frame() == playback.frame(),
        playback.pending matches Some(pending) ==> handed_out(playback).0 == (PlaybackModel {
            pending: Some(PendingDecode { dispatched: true, ..pending }),
            ..playback
        }),
        playback.pending is None ==> handed_out(playback).0 == playback,
{
}

/// A playback starts with nothing on show and asks for the image that its selection
/// comes to: that of the point in effect, the one that was chosen, or the primary one.
pub proof fn law_playback_starts_with_its_selection(
    schedule: super::model::Schedule<TimePoint>,
    image: ImageReference,
    primary: ImageReference,
    clock: ClockSnapshot,
    monotonic: u128,
    reduced_motion: bool,
    fresh: u64,
)
    ensures
        started(
            Selection::Time(&schedule),
            primary,
            clock,
            monotonic,
            reduced_motion,
            fresh,
        ).selected == point_at(ordered(schedule.listed()), clock).image,
        started(
            Selection::Time(&schedule),
            primary,
            clock,
            monotonic,
            reduced_motion,
            fresh,
        ).points == Some(ordered(schedule.listed())),
        started(
            Selection::Static(image),
            primary,
            clock,
            monotonic,
            reduced_motion,
            fresh,
        ).selected == image,
        started(
            Selection::Primary,
            primary,
            clock,
            monotonic,
            reduced_motion,
            fresh,
        ).selected == primary,
        forall|selection: Selection<'static>|
            {
                let playback = #[trigger] started(
                    selection,
                    primary,
                    clock,
                    monotonic,
                    reduced_motion,
                    fresh,
                );
                &&& playback.frame() is None
                &&& playback.points is Some <==> selection is Time
                &&& playback.reduced_motion == reduced_motion
                &&& playback.primary == primary
                &&& playback.pending == Some(
                    PendingDecode {
                        request: DecodeRequest { generation: fresh, image: playback.selected },
                        transition_started_at: None,
                        dispatched: false,
                    },
                )
                &&& playback.last_clock == clock && playback.last_monotonic == monotonic
            },
{
}

/// The wait for a boundary ends when the clock next comes to it, within a day.
pub proof fn law_a_boundary_is_waited_for_until_it_comes(boundary: int, now: int)
    requires
        0 <= boundary <= 86_400,
        0 <= now < 86_400_000_000_000,
    ensures
        0 < wait(boundary, now) <= 86_400_000_000_000,
        now + wait(boundary, now) == boundary * 1_000_000_000 || now + wait(boundary, now)
            == boundary * 1_000_000_000 + 86_400_000_000_000,
{
}

/// The clock is looked at again no later than the next boundary, the moment a failed image
/// may be tried again, and a minute from now, and not before the first of them. Without a
/// schedule it is looked at again only for a retry.
pub proof fn law_waking_meets_the_next_event(
    playback: PlaybackModel,
    clock: ClockSnapshot,
    monotonic: u128,
    index: int,
)
    requires
        playback.wf(),
        clock.wf(),
    ensures
        ({
            let retry = playback.lacking() && playback.retry_not_before is Some;
            let moment = playback.retry_not_before->Some_0;
            let now = super::clock::moment_of_day(clock);
            &&& wake(playback, clock, monotonic) is Some <==> playback.points is Some || retry
            &&& wake(playback, clock, monotonic) matches Some(delay) ==> {
                &&& delay <= 60_000_000_000
                &&& retry ==> delay <= span(monotonic, moment)
                &&& playback.points matches Some(points) ==> (0 <= index < points.len() ==> delay
                    <= wait(super::fraction::boundary_second(points[index].time.bits), now))
                &&& {
                    ||| delay == 60_000_000_000
                    ||| retry && delay == span(monotonic, moment)
                    ||| playback.points matches Some(points) && (exists|at: int|
                        0 <= at < points.len() && delay == wait(
                            super::fraction::boundary_second((#[trigger] points[at]).time.bits),
                            now,
                        ))
                }
            }
        }),
{
    if let Some(points) = playback.points {
        let now = super::clock::moment_of_day(clock);
        let at = lemma_soonest(points, now, points.len() as int, index);
    }
}

proof fn lemma_soonest(points: Seq<TimePoint>, now: int, count: int, index: int) -> (at: int)
    requires
        1 <= count <= points.len(),
    ensures
        0 <= at < count,
        soonest(points, now, count) == wait(
            super::fraction::boundary_second(points[at].time.bits),
            now,
        ),
        0 <= index < count ==> soonest(points, now, count) <= wait(
            super::fraction::boundary_second(points[index].time.bits),
            now,
        ),
    decreases count,
{
    if count == 1 {
        0
    } else {
        let before = lemma_soonest(points, now, count - 1, index);
        let last = wait(super::fraction::boundary_second(points[count - 1].time.bits), now);
        if last < soonest(points, now, count - 1) {
            count - 1
        } else {
            before
        }
    }
}

/// Images are blended where they follow a schedule and motion is not reduced, and nowhere
/// else.
pub proof fn law_only_schedules_in_motion_are_blended(playback: PlaybackModel)
    requires
        playback.wf(),
    ensures
        playback.still() <==> playback.reduced_motion || playback.points is None,
        playback.transition is Some ==> !playback.reduced_motion && playback.points is Some,
        playback.reduced_motion || playback.points is None ==> (playback.pending matches Some(
            pending,
        ) ==> pending.transition_started_at is None),
{
}

} // verus!
