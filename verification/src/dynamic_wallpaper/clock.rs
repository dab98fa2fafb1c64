//! Civil time as the wallpaper sees it.

use vstd::prelude::*;

use super::fraction::DAY_SECONDS;

verus! {

/// Nanoseconds in one second.
pub const SECOND: u128 = 1_000_000_000;

/// A clock reading that names no moment.
#[derive(Clone, Copy, Debug, PartialEq, Eq, Structural)]
pub enum ClockError {
    InvalidDate,
    InvalidTime,
    InvalidOffset,
}

/// Whether a year of the proleptic Gregorian calendar has a leap day.
pub open spec fn leap_year(year: int) -> bool {
    year % 4 == 0 && (year % 100 != 0 || year % 400 == 0)
}

/// The number of days of a month.
pub open spec fn days_in_month(year: int, month: int) -> int {
    if month == 2 {
        if leap_year(year) {
            29
        } else {
            28
        }
    } else if month == 4 || month == 6 || month == 9 || month == 11 {
        30
    } else {
        31
    }
}

/// A day of the proleptic Gregorian calendar.
#[derive(Clone, Copy, Debug, PartialEq, Eq, Structural)]
pub struct CivilDate {
    pub year: i32,
    pub month: u8,
    pub day: u8,
}

/// The remainder of a number after division by a positive one, never negative.
fn remainder(number: i32, divisor: u32) -> (rest: u32)
    requires
        0 < divisor <= 400,
    ensures
        rest == number as int % divisor as int,
{
    let shifted: u64 = (number as i64 + 2_147_483_648) as u64;
    // The shift is not a multiple of every divisor; it is undone below.
    let shift: u64 = 2_147_483_648 % divisor as u64;
    let rest: u64 = (shifted + (divisor as u64 - shift)) % divisor as u64;
    proof {
        let d = divisor as int;
        let n = number as int;
        let s = 2_147_483_648int;
        let q = s / d;
        assert(s == q * d + s % d) by {
            vstd::arithmetic::div_mod::lemma_fundamental_div_mod(s, d);
            assert(q * d == d * q) by (nonlinear_arith);
        }
        assert(shifted + (d - s % d) == n + (q + 1) * d) by {
            assert((q + 1) * d == q * d + d) by (nonlinear_arith);
        }
        vstd::arithmetic::div_mod::lemma_mod_multiples_vanish(q + 1, n, d);
        assert((q + 1) * d == d * (q + 1)) by (nonlinear_arith);
    }
    rest as u32
}

impl CivilDate {
    pub open spec fn wf(self) -> bool {
        &&& 1 <= self.month <= 12
        &&& 1 <= self.day <= days_in_month(self.year as int, self.month as int)
    }

    pub fn new(year: i32, month: u8, day: u8) -> (date: Result<Self, ClockError>)
        ensures
            date == if (CivilDate { year, month, day }).wf() {
                Ok(CivilDate { year, month, day })
            } else {
                Err(ClockError::InvalidDate)
            },
    {
        if month < 1 || month > 12 || day < 1 {
            return Err(ClockError::InvalidDate);
        }
        let leap = remainder(year, 4) == 0 && (remainder(year, 100) != 0 || remainder(year, 400)
            == 0);
        let last: u8 = if month == 2 {
            if leap {
                29
            } else {
                28
            }
        } else if month == 4 || month == 6 || month == 9 || month == 11 {
            30
        } else {
            31
        };
        if day > last {
            return Err(ClockError::InvalidDate);
        }
        Ok(CivilDate { year, month, day })
    }
}

/// A time of day, to the second.
#[derive(Clone, Copy, Debug, PartialEq, Eq, Structural)]
pub struct CivilTime {
    pub hour: u8,
    pub minute: u8,
    pub second: u8,
}

impl CivilTime {
    pub open spec fn wf(self) -> bool {
        self.hour < 24 && self.minute < 60 && self.second < 60
    }

    pub fn new(hour: u8, minute: u8, second: u8) -> (time: Result<Self, ClockError>)
        ensures
            time == if (CivilTime { hour, minute, second }).wf() {
                Ok(CivilTime { hour, minute, second })
            } else {
                Err(ClockError::InvalidTime)
            },
    {
        if hour >= 24 || minute >= 60 || second >= 60 {
            return Err(ClockError::InvalidTime);
        }
        Ok(CivilTime { hour, minute, second })
    }
}

/// One reading of the local clock.
#[derive(Clone, Copy, Debug, PartialEq, Eq, Structural)]
pub struct ClockSnapshot {
    pub date: CivilDate,
    pub time: CivilTime,
    pub nanosecond: u32,
    /// How far local time is ahead of UTC.
    pub utc_offset_seconds: i32,
}

/// The second of the day a clock shows.
pub open spec fn second_of_day(clock: ClockSnapshot) -> int {
    clock.time.hour * 3_600 + clock.time.minute * 60 + clock.time.second
}

/// The nanosecond of the day a clock shows.
pub open spec fn moment_of_day(clock: ClockSnapshot) -> int {
    second_of_day(clock) * SECOND + clock.nanosecond
}

/// The number of a day, counted without gaps from the first day of 1970. The year
/// is taken to begin in March, so that the leap day ends it.
pub open spec fn day_number(date: CivilDate) -> int {
    let adjustment = if date.month <= 2 {
        1int
    } else {
        0int
    };
    let year = date.year + 4_800 - adjustment;
    let month = date.month + 12 * adjustment - 3;
    date.day + (153 * month + 2) / 5 + 365 * year + year / 4 - year / 100 + year / 400 - 2_472_633
}

/// A moment on the UTC time line, in nanoseconds since the start of 1970.
pub open spec fn utc_moment(clock: ClockSnapshot) -> int {
    (day_number(clock.date) * DAY_SECONDS + second_of_day(clock) - clock.utc_offset_seconds)
        * SECOND + clock.nanosecond
}

/// The whole number of times a positive number goes into another, rounded down.
fn quotient(number: i64, divisor: u64) -> (times: i64)
    requires
        1 < divisor <= 400,
        -0x1_0000_0000 <= number <= 0x1_0000_0000,
    ensures
        times == number as int / divisor as int,
{
    let shift: u64 = 0x2_0000_0000 * divisor;
    assert(shift == 0x2_0000_0000 * divisor);
    let times: u64 = (number + shift as i64) as u64 / divisor;
    proof {
        let d = divisor as int;
        vstd::arithmetic::div_mod::lemma_hoist_over_denominator(
            number as int,
            0x2_0000_0000,
            divisor as nat,
        );
        assert((number as int) / d + 0x2_0000_0000 == (number + 0x2_0000_0000 * d) / d);
        assert(0x2_0000_0000 * d == shift);
        assert(-0x1_0000_0000 <= (number as int) / d <= 0x1_0000_0000) by (nonlinear_arith)
            requires
                1 < d,
                -0x1_0000_0000 <= number <= 0x1_0000_0000,
        ;
    }
    times as i64 - 0x2_0000_0000
}

impl ClockSnapshot {
    pub open spec fn wf(self) -> bool {
        &&& self.date.wf()
        &&& self.time.wf()
        &&& self.nanosecond < 1_000_000_000
        &&& -86_400 < self.utc_offset_seconds < 86_400
    }

    /// A reading at the start of a second.
    pub fn new(date: CivilDate, time: CivilTime, utc_offset_seconds: i32) -> (clock: Result<
        Self,
        ClockError,
    >)
        requires
            date.wf(),
            time.wf(),
        ensures
            clock == if -86_400 < utc_offset_seconds < 86_400 {
                Ok(ClockSnapshot { date, time, nanosecond: 0, utc_offset_seconds })
            } else {
                Err(ClockError::InvalidOffset)
            },
            clock matches Ok(clock) ==> clock.wf(),
    {
        Self::new_with_nanosecond(date, time, 0, utc_offset_seconds)
    }

    /// A reading to the nanosecond.
    pub fn new_with_nanosecond(
        date: CivilDate,
        time: CivilTime,
        nanosecond: u32,
        utc_offset_seconds: i32,
    ) -> (clock: Result<Self, ClockError>)
        requires
            date.wf(),
            time.wf(),
        ensures
            clock == if nanosecond >= 1_000_000_000 {
                Err(ClockError::InvalidTime)
            } else if -86_400 < utc_offset_seconds < 86_400 {
                Ok(ClockSnapshot { date, time, nanosecond, utc_offset_seconds })
            } else {
                Err(ClockError::InvalidOffset)
            },
            clock matches Ok(clock) ==> clock.wf(),
    {
        if nanosecond >= 1_000_000_000 {
            return Err(ClockError::InvalidTime);
        }
        if utc_offset_seconds <= -86_400 || utc_offset_seconds >= 86_400 {
            return Err(ClockError::InvalidOffset);
        }
        Ok(ClockSnapshot { date, time, nanosecond, utc_offset_seconds })
    }

    /// The moment on the UTC time line, in nanoseconds since the start of 1970.
    pub fn utc_nanoseconds(self) -> (moment: i128)
        requires
            self.wf(),
        ensures
            moment == utc_moment(self),
            -0x1_0000_0000_0000_0000_0000_0000 < moment < 0x1_0000_0000_0000_0000_0000_0000,
    {
        let adjustment: i64 = if self.date.month <= 2 {
            1
        } else {
            0
        };
        let year: i64 = self.date.year as i64 + 4_800 - adjustment;
        let month: i64 = self.date.month as i64 + 12 * adjustment - 3;
        let months: i64 = quotient(153 * month + 2, 5);
        let fourth: i64 = quotient(year, 4);
        let hundredth: i64 = quotient(year, 100);
        let four_hundredth: i64 = quotient(year, 400);
        let number: i64 = self.date.day as i64 + months + 365 * year + fourth - hundredth
            + four_hundredth - 2_472_633;
        assert(number == day_number(self.date));
        let seconds: i64 = number * 86_400 + seconds_of_day(self) as i64
            - self.utc_offset_seconds as i64;
        seconds as i128 * 1_000_000_000 + self.nanosecond as i128
    }
}

/// The second of the day a clock shows.
pub fn seconds_of_day(clock: ClockSnapshot) -> (second: u32)
    requires
        clock.wf(),
    ensures
        second == second_of_day(clock),
        second < DAY_SECONDS,
{
    clock.time.hour as u32 * 3_600 + clock.time.minute as u32 * 60 + clock.time.second as u32
}

/// The nanosecond of the day a clock shows.
pub fn time_of_day(clock: ClockSnapshot) -> (moment: u128)
    requires
        clock.wf(),
    ensures
        moment == moment_of_day(clock),
        moment < DAY_SECONDS * SECOND,
{
    seconds_of_day(clock) as u128 * SECOND + clock.nanosecond as u128
}

/// The day after a day.
pub open spec fn following_day(date: CivilDate) -> CivilDate {
    if date.day < days_in_month(date.year as int, date.month as int) {
        CivilDate { day: (date.day + 1) as u8, ..date }
    } else if date.month < 12 {
        CivilDate { month: (date.month + 1) as u8, day: 1, ..date }
    } else {
        CivilDate { year: (date.year + 1) as i32, month: 1, day: 1 }
    }
}

/// Days are numbered without gaps, across months, years, and leap days.
pub proof fn law_days_are_numbered_consecutively(date: CivilDate)
    requires
        date.wf(),
        date.year < i32::MAX,
    ensures
        following_day(date).wf(),
        day_number(following_day(date)) == day_number(date) + 1,
{
    let next = following_day(date);
    if date.month == 2 && next.month == 3 {
        let year = date.year + 4_800;
        assert((year - 1) / 4 + if year % 4 == 0 {
            1int
        } else {
            0
        } == year / 4);
        assert((year - 1) / 100 + if year % 100 == 0 {
            1int
        } else {
            0
        } == year / 100);
        assert((year - 1) / 400 + if year % 400 == 0 {
            1int
        } else {
            0
        } == year / 400);
        assert(year % 400 == 0 ==> year % 100 == 0);
        assert(year % 100 == 0 ==> year % 4 == 0);
        assert(year % 4 == date.year as int % 4);
        assert(year % 100 == date.year as int % 100);
        assert(year % 400 == date.year as int % 400);
    }
}

/// The moment that a clock shows, a second later.
pub open spec fn following_second(clock: ClockSnapshot) -> ClockSnapshot {
    let time = clock.time;
    if time.second < 59 {
        ClockSnapshot { time: CivilTime { second: (time.second + 1) as u8, ..time }, ..clock }
    } else if time.minute < 59 {
        ClockSnapshot {
            time: CivilTime { minute: (time.minute + 1) as u8, second: 0, ..time },
            ..clock
        }
    } else if time.hour < 23 {
        ClockSnapshot {
            time: CivilTime { hour: (time.hour + 1) as u8, minute: 0, second: 0 },
            ..clock
        }
    } else {
        ClockSnapshot {
            date: following_day(clock.date),
            time: CivilTime { hour: 0, minute: 0, second: 0 },
            ..clock
        }
    }
}

/// Time goes on evenly: from one second to the next, across minutes, hours, and days, a
/// thousand million nanoseconds pass. The day starts at zero, and the count at 1970 in UTC.
pub proof fn law_seconds_pass_evenly(clock: ClockSnapshot)
    requires
        clock.wf(),
        clock.date.year < i32::MAX,
    ensures
        following_second(clock).wf(),
        utc_moment(following_second(clock)) == utc_moment(clock) + 1_000_000_000,
        following_second(clock).date == clock.date ==> second_of_day(following_second(clock))
            == second_of_day(clock) + 1,
        following_second(clock).date != clock.date ==> second_of_day(following_second(clock)) == 0
            && second_of_day(clock) == 86_399,
        0 <= second_of_day(clock) < 86_400,
        moment_of_day(clock) == second_of_day(clock) * 1_000_000_000 + clock.nanosecond,
        clock.date == (CivilDate { year: 1970, month: 1, day: 1 }) && clock.time.hour == 0
            && clock.time.minute == 0 && clock.time.second == 0 && clock.nanosecond == 0
            && clock.utc_offset_seconds == 0 ==> utc_moment(clock) == 0,
{
    law_days_are_numbered_consecutively(clock.date);
}

/// A clock that is ahead of UTC shows a moment that is earlier by its offset, and the parts
/// of a second count as they are.
pub proof fn law_offsets_shift_the_moment(clock: ClockSnapshot, other: ClockSnapshot)
    requires
        other.date == clock.date,
        other.time == clock.time,
    ensures
        utc_moment(clock) - utc_moment(other) == (other.utc_offset_seconds
            - clock.utc_offset_seconds) * 1_000_000_000 + clock.nanosecond - other.nanosecond,
{
}

/// The calendar is the Gregorian one: it repeats after four centuries, which have 146097
/// days, and a year in which February has a day more is one that four divides, unless a
/// century ends with it that four does not divide.
pub proof fn law_the_calendar_is_gregorian(date: CivilDate, later: CivilDate)
    requires
        later.year == date.year + 400,
        later.month == date.month,
        later.day == date.day,
    ensures
        day_number(later) == day_number(date) + 146_097,
        date.wf() <==> later.wf(),
        days_in_month(date.year as int, 2) == 29 || days_in_month(date.year as int, 2) == 28,
        days_in_month(date.year as int, 2) == 29 <==> date.year as int % 400 == 0 || date.year
            as int % 4 == 0 && date.year as int % 100 != 0,
        days_in_month(date.year as int, 1) == 31 && days_in_month(date.year as int, 3) == 31
            && days_in_month(date.year as int, 4) == 30 && days_in_month(date.year as int, 5) == 31
            && days_in_month(date.year as int, 6) == 30 && days_in_month(date.year as int, 7) == 31
            && days_in_month(date.year as int, 8) == 31 && days_in_month(date.year as int, 9) == 30
            && days_in_month(date.year as int, 10) == 31 && days_in_month(date.year as int, 11)
            == 30 && days_in_month(date.year as int, 12) == 31,
{
    let year = date.year as int;
    lemma_four_centuries(year);
    lemma_four_centuries(year + 4_800);
    lemma_four_centuries(year + 4_799);
}

proof fn lemma_four_centuries(year: int)
    ensures
        (year + 400) / 4 == year / 4 + 100,
        (year + 400) / 100 == year / 100 + 4,
        (year + 400) / 400 == year / 400 + 1,
        (year + 400) % 4 == year % 4,
        (year + 400) % 100 == year % 100,
        (year + 400) % 400 == year % 400,
{
}

} // verus!
