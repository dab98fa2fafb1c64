//! Deterministic solar trajectory sampling and authored-point mapping.
//!
//! An authored `solar` schedule becomes the same local wall-clock `h24` schedule
//! that [`crate::dynamic_wallpaper::playback::Playback`] plays. Where the sun
//! stands at a moment, and how far that is from an authored position, are
//! computed by the caller: positions come in by moment, and distances as
//! integers that order as the distances do.
//!
//! The trajectory is sampled once per wall-clock minute and each authored point
//! is then refined to one-second resolution around its nearest sample.

use vstd::prelude::*;

use super::clock::{seconds_of_day, ClockSnapshot, SECOND};
use super::fraction::day_fraction_bits;
use super::model::{NormalizedTime, Schedule, SolarPoint, SolarPosition, TimePoint};

verus! {

/// Wall-clock seconds in one civil day.
pub const SECONDS_PER_DAY: u32 = 86_400;

/// Samples of one civil day.
pub const MINUTES_PER_DAY: u32 = 1_440;

/// How far around its nearest sample a point is refined.
pub const REFINEMENT_RADIUS_SECONDS: u32 = 60;

/// Why a solar schedule could not be mapped.
#[derive(Clone, Copy, Debug, PartialEq, Eq, Structural)]
pub enum SolarError {
    /// The authored schedule was unexpectedly empty.
    EmptySchedule,
    /// The local date or trajectory could not be represented.
    InvalidTrajectory,
}

impl SolarError {
    pub open spec fn text(self) -> Seq<char> {
        match self {
            SolarError::EmptySchedule => "invalid solar schedule: EmptySchedule"@,
            SolarError::InvalidTrajectory => "invalid solar schedule: InvalidTrajectory"@,
        }
    }

    /// The error as a sentence.
    pub fn message(self) -> (text: &'static str)
        ensures
            text@ == self.text(),
    {
        match self {
            SolarError::EmptySchedule => "invalid solar schedule: EmptySchedule",
            SolarError::InvalidTrajectory => "invalid solar schedule: InvalidTrajectory",
        }
    }
}

/// The UTC moment, in nanoseconds, at which the civil day of a clock began.
pub open spec fn day_start(clock: ClockSnapshot) -> int {
    super::clock::utc_moment(clock) - super::clock::second_of_day(clock) * SECOND
}

/// The UTC moment, in nanoseconds, of a second of the civil day of a clock.
pub open spec fn moment_at(clock: ClockSnapshot, second: int) -> int {
    day_start(clock) + second * SECOND
}

/// The UTC moment of a second of the day on which a clock stands.
pub fn utc_moment_at(clock: ClockSnapshot, second: u32) -> (moment: i128)
    requires
        clock.wf(),
    ensures
        moment == moment_at(clock, second as int),
{
    let base: i128 = clock.utc_nanoseconds() - seconds_of_day(clock) as i128 * 1_000_000_000;
    base + second as i128 * 1_000_000_000
}

/// The UTC moments of the minutes of the day on which a clock stands.
pub fn sampled_moments(clock: ClockSnapshot) -> (moments: Vec<i128>)
    requires
        clock.wf(),
    ensures
        moments@.len() == MINUTES_PER_DAY,
        forall|minute: int|
            0 <= minute < MINUTES_PER_DAY ==> #[trigger] moments@[minute] == moment_at(
                clock,
                60 * minute,
            ),
{
    let mut moments: Vec<i128> = Vec::with_capacity(MINUTES_PER_DAY as usize);
    let mut minute: u32 = 0;
    while minute < MINUTES_PER_DAY
        invariant
            clock.wf(),
            minute <= MINUTES_PER_DAY,
            moments@.len() == minute,
            forall|index: int|
                0 <= index < minute ==> #[trigger] moments@[index] == moment_at(clock, 60 * index),
        decreases MINUTES_PER_DAY - minute,
    {
        moments.push(utc_moment_at(clock, minute * 60));
        minute += 1;
    }
    moments
}

/// Where the sun stands at each sampled minute of the day of a clock, given where it
/// stands at every moment.
pub open spec fn positions_over(
    clock: ClockSnapshot,
    stands: spec_fn(int) -> SolarPosition,
) -> Seq<SolarPosition> {
    Seq::new(MINUTES_PER_DAY as nat, |minute: int| stands(moment_at(clock, 60 * minute)))
}

/// The one-minute trajectory of a civil day, from where the sun stands at each
/// sampled minute.
///
/// The returned samples are ordered by ascending wall-clock second. A day that
/// was not sampled minute by minute is no trajectory.
pub fn trajectory(positions: &Vec<SolarPosition>) -> (result: Result<
    Vec<(u32, SolarPosition)>,
    SolarError,
>)
    ensures
        positions@.len() != MINUTES_PER_DAY ==> result == Err::<
            Vec<(u32, SolarPosition)>,
            SolarError,
        >(SolarError::InvalidTrajectory),
        positions@.len() == MINUTES_PER_DAY ==> (result matches Ok(samples) && samples@.len()
            == MINUTES_PER_DAY && forall|minute: int|
            0 <= minute < MINUTES_PER_DAY ==> #[trigger] samples@[minute] == (
                (60 * minute) as u32,
                positions@[minute],
            )),
{
    if positions.len() != MINUTES_PER_DAY as usize {
        return Err(SolarError::InvalidTrajectory);
    }
    let mut samples: Vec<(u32, SolarPosition)> = Vec::with_capacity(MINUTES_PER_DAY as usize);
    let mut minute: u32 = 0;
    while minute < MINUTES_PER_DAY
        invariant
            positions@.len() == MINUTES_PER_DAY,
            minute <= MINUTES_PER_DAY,
            samples@.len() == minute,
            forall|index: int|
                0 <= index < minute ==> #[trigger] samples@[index] == (
                    (60 * index) as u32,
                    positions@[index],
                ),
        decreases MINUTES_PER_DAY - minute,
    {
        samples.push((minute * 60, positions[minute as usize]));
        minute += 1;
    }
    Ok(samples)
}

/// The position of the smallest of the first `count` distances, the earliest of
/// equal ones.
pub open spec fn nearest_among(distances: Seq<u64>, count: int) -> int
    decreases count,
{
    if count <= 1 {
        0
    } else {
        let before = nearest_among(distances, count - 1);
        if distances[count - 1] < distances[before] {
            count - 1
        } else {
            before
        }
    }
}

/// The nearer of two samples by their distances. The earlier is kept when the
/// two are equidistant; the strict comparison is what makes a tie deterministic.
pub fn nearer(best: Option<(usize, u64)>, candidate: (usize, u64)) -> (chosen: (usize, u64))
    ensures
        chosen == match best {
            Some(current) => if candidate.1 < current.1 {
                candidate
            } else {
                current
            },
            None => candidate,
        },
{
    match best {
        Some(current) => if candidate.1 < current.1 {
            candidate
        } else {
            current
        },
        None => candidate,
    }
}

/// The position of the smallest distance, the earliest of equal ones.
fn nearest(distances: &Vec<u64>) -> (position: Option<usize>)
    ensures
        distances@.len() == 0 ==> position is None,
        distances@.len() > 0 ==> position == Some(
            nearest_among(distances@, distances@.len() as int) as usize,
        ),
        position matches Some(position) ==> position < distances@.len() && position
            == nearest_among(distances@, distances@.len() as int),
{
    let mut best: Option<(usize, u64)> = None;
    let mut count: usize = 0;
    while count < distances.len()
        invariant
            count <= distances@.len(),
            count == 0 ==> best is None,
            count > 0 ==> (best matches Some((position, distance)) && position < count && position
                == nearest_among(distances@, count as int) && distance
                == distances@[position as int]),
        decreases distances@.len() - count,
    {
        best = Some(nearer(best, (count, distances[count])));
        count += 1;
    }
    match best {
        Some((position, _)) => Some(position),
        None => None,
    }
}

/// The second of the sample nearest to a point, from the distances of the
/// minutes of a day.
pub fn coarse_second(distances: &Vec<u64>) -> (second: Result<u32, SolarError>)
    ensures
        second == if distances@.len() == MINUTES_PER_DAY {
            Ok((60 * nearest_among(distances@, MINUTES_PER_DAY as int)) as u32)
        } else {
            Err(SolarError::InvalidTrajectory)
        },
        second matches Ok(second) ==> second < SECONDS_PER_DAY,
{
    if distances.len() != MINUTES_PER_DAY as usize {
        return Err(SolarError::InvalidTrajectory);
    }
    match nearest(distances) {
        Some(position) => Ok(position as u32 * 60),
        None => Err(SolarError::InvalidTrajectory),
    }
}

/// The first second to look at when refining a sample.
pub open spec fn window_start(coarse: int) -> int {
    if coarse < REFINEMENT_RADIUS_SECONDS {
        0
    } else {
        coarse - REFINEMENT_RADIUS_SECONDS
    }
}

/// The last second to look at when refining a sample.
pub open spec fn window_end(coarse: int) -> int {
    if coarse + REFINEMENT_RADIUS_SECONDS > SECONDS_PER_DAY - 1 {
        SECONDS_PER_DAY - 1
    } else {
        coarse + REFINEMENT_RADIUS_SECONDS
    }
}

/// The first and last second to look at when refining a sample.
pub fn refinement_window(coarse: u32) -> (window: (u32, u32))
    requires
        coarse < SECONDS_PER_DAY,
    ensures
        window.0 == window_start(coarse as int),
        window.1 == window_end(coarse as int),
        window.0 <= coarse <= window.1 < SECONDS_PER_DAY,
{
    let start: u32 = coarse.saturating_sub(REFINEMENT_RADIUS_SECONDS);
    let end: u32 = if coarse + REFINEMENT_RADIUS_SECONDS > SECONDS_PER_DAY - 1 {
        SECONDS_PER_DAY - 1
    } else {
        coarse + REFINEMENT_RADIUS_SECONDS
    };
    (start, end)
}

/// The second nearest to a point, from the distances of the seconds around its
/// nearest sample.
pub fn refined_second(coarse: u32, distances: &Vec<u64>) -> (second: Result<u32, SolarError>)
    requires
        coarse < SECONDS_PER_DAY,
    ensures
        second == if distances@.len() == window_end(coarse as int) - window_start(coarse as int)
            + 1 {
            Ok(
                (window_start(coarse as int) + nearest_among(
                    distances@,
                    distances@.len() as int,
                )) as u32,
            )
        } else {
            Err(SolarError::InvalidTrajectory)
        },
        second matches Ok(second) ==> window_start(coarse as int) <= second <= window_end(
            coarse as int,
        ),
{
    let (start, end) = refinement_window(coarse);
    if distances.len() != (end - start + 1) as usize {
        return Err(SolarError::InvalidTrajectory);
    }
    match nearest(distances) {
        Some(position) => Ok(start + position as u32),
        None => Err(SolarError::InvalidTrajectory),
    }
}

/// The wall-clock points of a solar schedule whose points were mapped to
/// `seconds`.
pub open spec fn mapped_points(points: Seq<SolarPoint>, seconds: Seq<u32>) -> Seq<TimePoint> {
    Seq::new(
        points.len(),
        |index: int|
            TimePoint {
                image: points[index].image,
                time: NormalizedTime {
                    bits: super::fraction::day_fraction(seconds[index] as int) as u64,
                },
            },
    )
}

/// Whether every authored point was mapped to a second of the day.
pub open spec fn mapped(points: Seq<SolarPoint>, seconds: Seq<u32>) -> bool {
    &&& seconds.len() == points.len()
    &&& forall|index: int| 0 <= index < seconds.len() ==> seconds[index] < SECONDS_PER_DAY
}

/// Maps every authored solar point to the second of the day's trajectory that is
/// nearest to it.
///
/// Authored order is preserved. Points that map to the same wall-clock second
/// remain in the returned schedule in metadata order; the downstream `h24`
/// scheduler keeps the last duplicate at that boundary.
#[verifier::loop_isolation(false)]
pub fn map_schedule(schedule: &Schedule<SolarPoint>, seconds: &Vec<u32>) -> (result: Result<
    Schedule<TimePoint>,
    SolarError,
>)
    ensures
        match result {
            Ok(times) => {
                &&& mapped(schedule.listed(), seconds@)
                &&& times.listed() == mapped_points(schedule.listed(), seconds@)
                &&& times.embedded() == schedule.embedded()
            },
            Err(error) => error == SolarError::InvalidTrajectory && !mapped(
                schedule.listed(),
                seconds@,
            ),
        },
{
    let points = schedule.points();
    if seconds.len() != points.len() {
        return Err(SolarError::InvalidTrajectory);
    }
    let mut times: Vec<TimePoint> = Vec::with_capacity(points.len());
    let mut index: usize = 0;
    while index < points.len()
        invariant
            index <= points@.len(),
            times@.len() == index,
            forall|done: int| 0 <= done < index ==> seconds@[done] < SECONDS_PER_DAY,
            forall|done: int|
                0 <= done < index ==> #[trigger] times@[done] == mapped_points(
                    points@,
                    seconds@,
                )[done],
        decreases points@.len() - index,
    {
        let second: u32 = seconds[index];
        if second >= SECONDS_PER_DAY {
            assert(!mapped(schedule.listed(), seconds@));
            return Err(SolarError::InvalidTrajectory);
        }
        let time = NormalizedTime { bits: day_fraction_bits(second) };
        times.push(TimePoint { image: points[index].image, time });
        index += 1;
    }
    assert(times@ =~= mapped_points(points@, seconds@));
    match Schedule::new(times, schedule.appearance()) {
        Ok(times) => Ok(times),
        Err(_) => Err(SolarError::EmptySchedule),
    }
}

// ---------------------------------------------------------------------------
// Laws
// ---------------------------------------------------------------------------

/// The chosen sample is at least as near as every other, and nearer than every
/// earlier one.
pub proof fn law_the_earliest_nearest_sample_is_chosen(distances: Seq<u64>, count: int)
    requires
        1 <= count <= distances.len(),
    ensures
        0 <= nearest_among(distances, count) < count,
        forall|other: int|
            0 <= other < count ==> distances[nearest_among(distances, count)] <= #[trigger] distances[other],
        forall|earlier: int|
            0 <= earlier < nearest_among(distances, count) ==> distances[nearest_among(
                distances,
                count,
            )] < #[trigger] distances[earlier],
    decreases count,
{
    if count > 1 {
        law_the_earliest_nearest_sample_is_chosen(distances, count - 1);
    }
}

/// A mapped point takes effect at exactly the second it was mapped to, and shows
/// the image it was authored with.
pub proof fn law_mapped_points_take_effect_at_their_second(
    points: Seq<SolarPoint>,
    seconds: Seq<u32>,
    index: int,
)
    requires
        mapped(points, seconds),
        0 <= index < points.len(),
    ensures
        mapped_points(points, seconds)[index].image == points[index].image,
        mapped_points(points, seconds)[index].time.wf(),
        super::fraction::boundary_second(mapped_points(points, seconds)[index].time.bits)
            == seconds[index],
{
    super::fraction::law_whole_seconds_take_effect_exactly(seconds[index] as int);
}

/// The moments of a civil day are one second apart, and its current second is
/// the moment on the clock, but for the fraction of a second that every moment
/// of the day carries.
pub proof fn law_the_day_is_sampled_from_local_midnight(clock: ClockSnapshot, second: int)
    ensures
        moment_at(clock, super::clock::second_of_day(clock)) == super::clock::utc_moment(clock),
        moment_at(clock, second + 1) == moment_at(clock, second) + SECOND,
        moment_at(clock, 0) == (super::clock::day_number(clock.date) * SECONDS_PER_DAY
            - clock.utc_offset_seconds) * SECOND + clock.nanosecond,
{
}

/// Clocks of one date and one distance from UTC, made to the second, have one
/// trajectory, whatever time they show and wherever the sun stands when.
pub proof fn law_the_trajectory_is_that_of_the_date(
    one: ClockSnapshot,
    other: ClockSnapshot,
    stands: spec_fn(int) -> SolarPosition,
)
    requires
        one.date == other.date,
        one.utc_offset_seconds == other.utc_offset_seconds,
        one.nanosecond == 0,
        other.nanosecond == 0,
    ensures
        forall|second: int| #[trigger] moment_at(one, second) == moment_at(other, second),
        positions_over(one, stands) == positions_over(other, stands),
{
    assert forall|second: int| #[trigger] moment_at(one, second) == moment_at(other, second) by {
        law_the_day_is_sampled_from_local_midnight(one, second);
        law_the_day_is_sampled_from_local_midnight(other, second);
    }
    assert(positions_over(one, stands) =~= positions_over(other, stands));
}

/// A sample is refined over the seconds of its day that are at most a minute from it.
pub proof fn law_samples_are_refined_within_a_minute(coarse: int, second: int)
    requires
        0 <= coarse < 86_400,
    ensures
        window_start(coarse) <= second <= window_end(coarse) <==> 0 <= second < 86_400 && -60
            <= second - coarse <= 60,
{
}

} // verus!
