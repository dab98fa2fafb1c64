//! Fractions of a day as IEEE 754 double-precision bit patterns.
//!
//! Times and angles are carried as the bit patterns of doubles. Among doubles
//! that are not negative, the order of the numbers is the order of their bit
//! patterns, so a time is compared without floating-point arithmetic.

use vstd::prelude::*;

verus! {

/// Seconds in one civil day.
pub const DAY_SECONDS: u32 = 86_400;

/// The bit pattern of `1.0`.
pub const ONE: u64 = 0x3ff0_0000_0000_0000;

/// The bit pattern of `-0.0`, which is also the sign bit.
pub const NEGATIVE_ZERO: u64 = 0x8000_0000_0000_0000;

/// The bit pattern of positive infinity. A pattern without its sign bit stands
/// for a finite number exactly when it is smaller.
pub const INFINITY: u64 = 0x7ff0_0000_0000_0000;

/// Two to the power `exponent`.
pub open spec fn power(exponent: nat) -> nat
    decreases exponent,
{
    if exponent == 0 {
        1
    } else {
        2 * power((exponent - 1) as nat)
    }
}

/// Whether scaling by two to the power `scale` brings `second / 86400` to at
/// least `2^52`, so that its integer part has all the digits of a double.
pub open spec fn scaled(second: int, scale: nat) -> bool {
    second * power(scale) >= 86_400 * 0x10_0000_0000_0000
}

/// The least such scale from `from` on.
pub open spec fn scale_from(second: int, from: nat) -> nat
    decreases 70 - from,
{
    if from >= 69 || scaled(second, from) {
        from
    } else {
        scale_from(second, from + 1)
    }
}

/// `dividend / divisor` rounded to the nearest integer, ties to even.
pub open spec fn rounded(dividend: int, divisor: int) -> int {
    let quotient = dividend / divisor;
    let twice = 2 * (dividend % divisor);
    if twice > divisor || (twice == divisor && quotient % 2 == 1) {
        quotient + 1
    } else {
        quotient
    }
}

/// The bit pattern of the double nearest to `second / 86400`.
pub open spec fn day_fraction(second: int) -> int {
    if second <= 0 {
        0
    } else {
        let scale = scale_from(second, 52);
        (1075 - scale) * 0x10_0000_0000_0000 + rounded(second * power(scale), 86_400)
            - 0x10_0000_0000_0000
    }
}

/// The first second from `second` on whose fraction of the day is not before
/// `time`.
pub open spec fn boundary_from(time: u64, second: int) -> int
    decreases 86_400 - second,
{
    if second >= 86_400 || time <= day_fraction(second) {
        second
    } else {
        boundary_from(time, second + 1)
    }
}

/// Whether a bit pattern is that of a number with a minus sign, zero among them.
pub open spec fn negative(bits: u64) -> bool {
    NEGATIVE_ZERO <= bits <= NEGATIVE_ZERO + INFINITY
}

/// The second of the day at which `time` takes effect. A negative time is in effect
/// from the start, and what is no number takes effect at the end.
pub open spec fn boundary_second(time: u64) -> int {
    if negative(time) {
        0
    } else {
        boundary_from(time, 0)
    }
}

proof fn lemma_power_69()
    ensures
        power(52) == 0x10_0000_0000_0000,
        power(69) == 0x20_0000_0000_0000_0000,
{
    lemma_power_add(32, 20);
    lemma_power_add(52, 17);
    reveal_with_fuel(power, 33);
    assert(power(20) == 0x10_0000);
    assert(power(32) == 0x1_0000_0000);
    assert(power(17) == 0x2_0000);
}

proof fn lemma_power_add(a: nat, b: nat)
    ensures
        power(a + b) == power(a) * power(b),
    decreases b,
{
    if b > 0 {
        lemma_power_add(a, (b - 1) as nat);
        assert(power(a) * (2 * power((b - 1) as nat)) == 2 * (power(a) * power((b - 1) as nat)))
            by (nonlinear_arith);
    } else {
        assert(power(a) * 1 == power(a)) by (nonlinear_arith);
    }
}

proof fn lemma_power_positive(a: nat)
    ensures
        power(a) >= 1,
    decreases a,
{
    if a > 0 {
        lemma_power_positive((a - 1) as nat);
    }
}

/// The scale of a second: the scaled quotient has exactly fifty-three digits.
proof fn lemma_scale(second: int, from: nat)
    requires
        1 <= second <= 86_400,
        52 <= from <= 69,
        from > 52 ==> !scaled(second, (from - 1) as nat),
    ensures
        from <= scale_from(second, from) <= 69,
        scaled(second, scale_from(second, from)),
        second * power(scale_from(second, from)) < 2 * 86_400 * 0x10_0000_0000_0000
            || scale_from(second, from) == 52 && second == 86_400,
    decreases 70 - from,
{
    lemma_power_69();
    if from >= 69 || scaled(second, from) {
        if from == 69 {
            assert(second * power(69) >= power(69)) by (nonlinear_arith)
                requires
                    second >= 1,
                    power(69) >= 0,
            ;
        }
        if from > 52 {
            assert(power(from) == 2 * power((from - 1) as nat));
            assert(second * (2 * power((from - 1) as nat)) == 2 * (second * power(
                (from - 1) as nat,
            ))) by (nonlinear_arith);
        } else {
            assert(second * power(52) <= 86_400 * power(52)) by (nonlinear_arith)
                requires
                    second <= 86_400,
                    power(52) >= 0,
            ;
        }
    } else {
        lemma_scale(second, from + 1);
    }
}

/// A larger second never needs a larger scale.
proof fn lemma_scale_antitone(small: int, large: int, from: nat)
    requires
        1 <= small <= large <= 86_400,
        52 <= from <= 69,
    ensures
        scale_from(large, from) <= scale_from(small, from),
    decreases 70 - from,
{
    lemma_power_positive(from);
    assert(small * power(from) <= large * power(from)) by (nonlinear_arith)
        requires
            small <= large,
            power(from) >= 0,
    ;
    if from < 69 && !scaled(small, from) {
        if scaled(large, from) {
            lemma_scale_at_least(small, from + 1);
        } else {
            lemma_scale_antitone(small, large, from + 1);
        }
    }
}

proof fn lemma_scale_at_least(second: int, from: nat)
    requires
        from <= 69,
    ensures
        from <= scale_from(second, from),
    decreases 70 - from,
{
    if from < 69 && !scaled(second, from) {
        lemma_scale_at_least(second, from + 1);
    }
}

proof fn lemma_rounded_bounds(dividend: int, divisor: int, low: int, high: int)
    requires
        divisor > 0,
        low * divisor <= dividend <= high * divisor,
    ensures
        low <= rounded(dividend, divisor) <= high,
{
    let quotient = dividend / divisor;
    let rest = dividend % divisor;
    vstd::arithmetic::div_mod::lemma_fundamental_div_mod(dividend, divisor);
    assert(low <= quotient) by (nonlinear_arith)
        requires
            low * divisor <= dividend,
            dividend == divisor * quotient + rest,
            0 <= rest < divisor,
            divisor > 0,
    ;
    assert(quotient < high || quotient == high && rest == 0) by (nonlinear_arith)
        requires
            dividend <= high * divisor,
            dividend == divisor * quotient + rest,
            0 <= rest < divisor,
            divisor > 0,
    ;
}

/// Where a fraction lies among the patterns of its scale.
proof fn lemma_fraction_range(second: int)
    requires
        1 <= second <= 86_400,
    ensures
        ({
            let scale = scale_from(second, 52);
            &&& 52 <= scale <= 69
            &&& (1075 - scale) * 0x10_0000_0000_0000 <= day_fraction(second)
            &&& day_fraction(second) <= (1076 - scale) * 0x10_0000_0000_0000
        }),
{
    lemma_scale(second, 52);
    let scale = scale_from(second, 52);
    let dividend = second * power(scale);
    lemma_power_69();
    assert(dividend <= 2 * 86_400 * 0x10_0000_0000_0000) by {
        if scale == 52 && second == 86_400 {
            assert(86_400 * power(52) == 86_400 * 0x10_0000_0000_0000);
        }
    }
    lemma_rounded_bounds(dividend, 86_400, 0x10_0000_0000_0000, 0x20_0000_0000_0000);
}

/// A later second has a strictly larger fraction.
proof fn lemma_fraction_increases(second: int)
    requires
        0 <= second < 86_400,
    ensures
        day_fraction(second) < day_fraction(second + 1),
{
    lemma_fraction_range(second + 1);
    if second > 0 {
        lemma_fraction_range(second);
        lemma_scale_antitone(second, second + 1, 52);
        let scale = scale_from(second, 52);
        let next = scale_from(second + 1, 52);
        lemma_scale(second, 52);
        lemma_scale(second + 1, 52);
        lemma_power_69();
        if next == scale {
            let before = second * power(scale);
            let after = (second + 1) * power(scale);
            assert(after == before + power(scale)) by (nonlinear_arith)
                requires
                    before == second * power(scale),
                    after == (second + 1) * power(scale),
            ;
            lemma_power_grows(52, scale);
            lemma_rounded_gap(before, after);
        } else {
            // The next second starts a new scale, whose patterns are all larger.
            let dividend = second * power(scale);
            assert(dividend < 2 * 86_400 * 0x10_0000_0000_0000);
            lemma_next_scale(second, scale, next);
        }
    }
}

proof fn lemma_power_grows(a: nat, b: nat)
    requires
        a <= b,
    ensures
        power(a) <= power(b),
    decreases b,
{
    if a < b {
        lemma_power_grows(a, (b - 1) as nat);
        lemma_power_positive((b - 1) as nat);
    }
}

/// Dividends more than one divisor apart round to different integers.
proof fn lemma_rounded_gap(before: int, after: int)
    requires
        0 <= before,
        before + 0x10_0000_0000_0000 <= after,
    ensures
        rounded(before, 86_400) < rounded(after, 86_400),
{
}

/// Where the scale drops, the pattern still grows.
proof fn lemma_next_scale(second: int, scale: nat, next: nat)
    requires
        1 <= second < 86_400,
        scale == scale_from(second, 52),
        next == scale_from(second + 1, 52),
        next < scale,
    ensures
        day_fraction(second) < day_fraction(second + 1),
{
    lemma_fraction_range(second);
    lemma_fraction_range(second + 1);
    lemma_scale(second, 52);
    lemma_scale(second + 1, 52);
    if next + 1 == scale {
        let half = power(next);
        lemma_power_grows(52, next);
        lemma_power_69();
        assert(power(scale) == 2 * half);
        let before = second * power(scale);
        let after = (second + 1) * half;
        assert(before == 2 * (second * half)) by (nonlinear_arith)
            requires
                before == second * power(scale),
                power(scale) == 2 * half,
        ;
        assert(after == second * half + half) by (nonlinear_arith)
            requires
                after == (second + 1) * half,
        ;
        // The second itself was not yet scaled at the smaller scale.
        assert(!scaled(second, next)) by {
            if scaled(second, next) {
                lemma_scale_stops(second, 52, next);
            }
        }
        assert(before < 2 * 86_400 * 0x10_0000_0000_0000);
        assert(after >= 86_400 * 0x10_0000_0000_0000);
        lemma_rounded_bounds(after, 86_400, 0x10_0000_0000_0000, 0x20_0000_0000_0000);
        if rounded(before, 86_400) == 2 * 0x10_0000_0000_0000 && rounded(after, 86_400)
            == 0x10_0000_0000_0000 {
            // Both would have to round to the same power of two from within half
            // a unit, but they are further apart than that.
            assert(false);
        }
    }
}

/// The scale search stops at the first scale that suffices.
proof fn lemma_scale_stops(second: int, from: nat, at: nat)
    requires
        from <= at <= 69,
        scaled(second, at),
    ensures
        scale_from(second, from) <= at,
    decreases at - from,
{
    if from < at && !scaled(second, from) {
        lemma_scale_stops(second, from + 1, at);
    }
}

/// The bit pattern of the double nearest to `second / 86400`.
pub fn day_fraction_bits(second: u32) -> (bits: u64)
    requires
        second <= DAY_SECONDS,
    ensures
        bits == day_fraction(second as int),
        bits <= ONE,
        second < DAY_SECONDS ==> bits < ONE,
{
    if second == 0 {
        return 0;
    }
    proof {
        lemma_power_69();
        lemma_scale(second as int, 52);
        lemma_fraction_range(second as int);
        lemma_fraction_at_most_one(second as int);
    }
    let mut scale: u32 = 52;
    let mut factor: u128 = 0x10_0000_0000_0000;
    while scale < 69 && (second as u128) * factor < 86_400 * 0x10_0000_0000_0000
        invariant
            1 <= second <= 86_400,
            52 <= scale <= 69,
            factor == power(scale as nat),
            factor <= 0x20_0000_0000_0000_0000,
            power(69) == 0x20_0000_0000_0000_0000,
            second * factor <= 86_400 * 0x20_0000_0000_0000_0000,
            scale_from(second as int, 52) == scale_from(second as int, scale as nat),
        decreases 69 - scale,
    {
        proof {
            lemma_power_grows((scale + 1) as nat, 69);
        }
        factor = factor * 2;
        scale += 1;
        assert(second * factor <= 86_400 * 0x20_0000_0000_0000_0000) by (nonlinear_arith)
            requires
                0 <= second <= 86_400,
                0 <= factor <= 0x20_0000_0000_0000_0000,
        ;
    }
    assert(scale == scale_from(second as int, 52));
    let dividend: u128 = second as u128 * factor;
    let quotient: u128 = dividend / 86_400;
    let twice: u128 = 2 * (dividend % 86_400);
    let digits: u128 = if twice > 86_400 || (twice == 86_400 && quotient % 2 == 1) {
        quotient + 1
    } else {
        quotient
    };
    ((1075 - scale) as u128 * 0x10_0000_0000_0000 + digits - 0x10_0000_0000_0000) as u64
}

proof fn lemma_fraction_at_most_one(second: int)
    requires
        1 <= second <= 86_400,
    ensures
        day_fraction(86_400) == ONE,
        day_fraction(second) <= ONE,
        second < 86_400 ==> day_fraction(second) < ONE,
    decreases 86_400 - second,
{
    lemma_power_69();
    assert(scaled(86_400, 52));
    assert(86_400 * power(52) == 86_400 * 0x10_0000_0000_0000);
    if second < 86_400 {
        lemma_fraction_increases(second);
        lemma_fraction_at_most_one(second + 1);
    }
}

proof fn lemma_fraction_monotone(small: int, large: int)
    requires
        0 <= small <= large <= 86_400,
    ensures
        day_fraction(small) <= day_fraction(large),
        small < large ==> day_fraction(small) < day_fraction(large),
    decreases large - small,
{
    if small < large {
        lemma_fraction_increases(small);
        lemma_fraction_monotone(small + 1, large);
    }
}

/// Nothing before `low` reaches `time`, so the search may start there.
proof fn lemma_boundary_skip(time: u64, from: int, low: int)
    requires
        0 <= from <= low <= 86_400,
        forall|second: int| from <= second < low ==> time > #[trigger] day_fraction(second),
    ensures
        boundary_from(time, from) == boundary_from(time, low),
    decreases low - from,
{
    if from < low {
        assert(time > day_fraction(from));
        lemma_boundary_skip(time, from + 1, low);
    }
}

/// The second of the day at which a time takes effect: the first whose fraction
/// of the day is not before it.
pub fn effective_boundary_second(time: u64) -> (second: u32)
    ensures
        second == boundary_second(time),
        second <= DAY_SECONDS,
        time < ONE ==> time <= day_fraction(second as int),
        forall|earlier: int| 0 <= earlier < second ==> time > #[trigger] day_fraction(earlier),
{
    if NEGATIVE_ZERO <= time && time - NEGATIVE_ZERO <= INFINITY {
        return 0;
    }
    let mut low: u32 = 0;
    let mut high: u32 = DAY_SECONDS;
    proof {
        lemma_fraction_at_most_one(86_400);
    }
    while low < high
        invariant
            low <= high <= DAY_SECONDS,
            high == DAY_SECONDS || time <= day_fraction(high as int),
            time < ONE ==> time <= day_fraction(high as int),
            forall|earlier: int| 0 <= earlier < low ==> time > #[trigger] day_fraction(earlier),
        decreases high - low,
    {
        let middle: u32 = low + (high - low) / 2;
        if time <= day_fraction_bits(middle) {
            high = middle;
        } else {
            assert forall|earlier: int| 0 <= earlier < middle + 1 implies time
                > #[trigger] day_fraction(earlier) by {
                lemma_fraction_monotone(earlier, middle as int);
            }
            low = middle + 1;
        }
    }
    proof {
        lemma_boundary_skip(time, 0, low as int);
    }
    low
}

/// A time that stands for a whole second of the day takes effect at that second.
pub proof fn law_whole_seconds_take_effect_exactly(second: int)
    requires
        0 <= second < 86_400,
    ensures
        0 <= day_fraction(second) < ONE,
        boundary_second(day_fraction(second) as u64) == second,
{
    if second > 0 {
        lemma_fraction_range(second);
        lemma_fraction_at_most_one(second);
    }
    assert forall|earlier: int| 0 <= earlier < second implies day_fraction(second) as u64
        > #[trigger] day_fraction(earlier) by {
        lemma_fraction_monotone(earlier, second);
    }
    lemma_boundary_skip(day_fraction(second) as u64, 0, second);
}

/// Later times never take effect earlier.
pub proof fn law_boundaries_follow_the_order_of_times(early: u64, late: u64)
    requires
        early <= late,
        !negative(late),
    ensures
        boundary_second(early) <= boundary_second(late),
{
    lemma_boundary_ordered(early, late, 0);
}

/// Every time takes effect in the course of the day.
pub proof fn lemma_boundaries_lie_in_the_day(time: u64)
    ensures
        0 <= boundary_second(time) <= 86_400,
{
    lemma_boundary_ordered(0, time, 0);
    lemma_boundary_ends(time, 0);
}

proof fn lemma_boundary_ends(time: u64, from: int)
    requires
        0 <= from <= 86_400,
    ensures
        boundary_from(time, from) <= 86_400,
    decreases 86_400 - from,
{
    if from < 86_400 && time > day_fraction(from) {
        lemma_boundary_ends(time, from + 1);
    }
}

proof fn lemma_boundary_ordered(early: u64, late: u64, from: int)
    requires
        early <= late,
        0 <= from <= 86_400,
    ensures
        from <= boundary_from(early, from) <= boundary_from(late, from),
    decreases 86_400 - from,
{
    if from < 86_400 && late > day_fraction(from) {
        lemma_boundary_ordered(early, late, from + 1);
    }
}

/// The scale that brings a whole number to fifty-three digits.
pub open spec fn whole_scale(number: int, from: nat) -> nat
    decreases 53 - from,
{
    if from >= 52 || number * power(from) >= 0x10_0000_0000_0000 {
        from
    } else {
        whole_scale(number, from + 1)
    }
}

/// The bit pattern of a whole number below `2^53`.
pub open spec fn whole_number(number: int) -> int {
    if number <= 0 {
        0
    } else {
        let scale = whole_scale(number, 0);
        (1075 - scale) * 0x10_0000_0000_0000 + number * power(scale) - 0x10_0000_0000_0000
    }
}

/// The bit pattern of a small whole number.
pub fn whole_number_bits(number: u16) -> (bits: u64)
    ensures
        bits == whole_number(number as int),
        bits < NEGATIVE_ZERO,
{
    if number == 0 {
        return 0;
    }
    let mut scale: u32 = 0;
    let mut digits: u64 = number as u64;
    assert(number * power(0) == number) by (nonlinear_arith)
        requires
            power(0) == 1,
    ;
    while scale < 52 && digits < 0x10_0000_0000_0000
        invariant
            1 <= number,
            scale <= 52,
            digits == number * power(scale as nat),
            1 <= digits,
            digits < 0x20_0000_0000_0000,
            whole_scale(number as int, 0) == whole_scale(number as int, scale as nat),
            digits >= power(scale as nat),
        decreases 52 - scale,
    {
        assert(number * (2 * power(scale as nat)) == 2 * (number * power(scale as nat)))
            by (nonlinear_arith);
        digits = digits * 2;
        scale += 1;
    }
    proof {
        if scale == 52 {
            lemma_power_69();
        }
    }
    (1075 - scale) as u64 * 0x10_0000_0000_0000 + digits - 0x10_0000_0000_0000
}

proof fn lemma_whole_scale(number: int, from: nat)
    requires
        1 <= number <= 90,
        from <= 52,
        number * power(from) < 0x20_0000_0000_0000,
    ensures
        ({
            let scale = whole_scale(number, from);
            &&& 46 <= scale <= 52
            &&& number * power(scale) < 0x20_0000_0000_0000
        }),
    decreases 52 - from,
{
    if from >= 52 || number * power(from) >= 0x10_0000_0000_0000 {
        if from <= 45 {
            lemma_power_grows(from, 45);
            lemma_power_add(32, 13);
            reveal_with_fuel(power, 33);
            assert(power(45) == 0x2000_0000_0000);
            assert(number * power(from) <= 90 * 0x2000_0000_0000) by (nonlinear_arith)
                requires
                    1 <= number <= 90,
                    0 <= power(from) <= 0x2000_0000_0000,
            ;
        }
    } else {
        assert(number * (2 * power(from)) == 2 * (number * power(from))) by (nonlinear_arith);
        lemma_whole_scale(number, from + 1);
    }
}

/// The bit pattern of a whole number up to ninety is at most that of ninety.
pub proof fn lemma_whole_numbers_to_ninety(number: int)
    requires
        0 <= number <= 90,
    ensures
        0 <= whole_number(number) <= 0x4056_8000_0000_0000,
{
    if number > 0 {
        assert(number * power(0) == number) by (nonlinear_arith)
            requires
                power(0) == 1,
        ;
        lemma_whole_scale(number, 0);
        let scale = whole_scale(number, 0);
        lemma_power_positive(scale);
        assert(0 <= number * power(scale)) by (nonlinear_arith)
            requires
                0 <= number,
                1 <= power(scale),
        ;
        if scale == 46 {
            lemma_power_add(32, 14);
            reveal_with_fuel(power, 33);
            assert(power(46) == 0x4000_0000_0000);
        }
    }
}

/// Whether a bit pattern is that of a double whose value is a whole number: its
/// significand is the number with as many binary digits behind it as its exponent says.
pub open spec fn stands_for(bits: u64, number: int) -> bool {
    let exponent = bits as int / 0x10_0000_0000_0000;
    let significand = bits as int % 0x10_0000_0000_0000 + 0x10_0000_0000_0000;
    if number == 0 {
        bits == 0
    } else {
        &&& 1023 <= exponent <= 1075
        &&& significand == number * power((1075 - exponent) as nat)
    }
}

/// The pattern of a small whole number is that of the double with this value.
pub proof fn law_whole_numbers_have_their_pattern(number: int)
    requires
        0 <= number <= 360,
    ensures
        0 <= whole_number(number) < NEGATIVE_ZERO,
        stands_for(whole_number(number) as u64, number),
{
    if number > 0 {
        assert(number * power(0) == number) by (nonlinear_arith)
            requires
                power(0) == 1,
        ;
        lemma_whole_digits(number, 0);
        let scale = whole_scale(number, 0);
        let digits = number * power(scale);
        assert(whole_number(number) == (1075 - scale) * 0x10_0000_0000_0000 + (digits
            - 0x10_0000_0000_0000));
    }
}

proof fn lemma_whole_digits(number: int, from: nat)
    requires
        1 <= number <= 360,
        from <= 52,
        number * power(from) < 0x20_0000_0000_0000,
    ensures
        from <= whole_scale(number, from) <= 52,
        0x10_0000_0000_0000 <= number * power(whole_scale(number, from)) < 0x20_0000_0000_0000,
    decreases 52 - from,
{
    if number * power(from) < 0x10_0000_0000_0000 {
        if from == 52 {
            lemma_power_69();
            assert(number * 0x10_0000_0000_0000 >= 0x10_0000_0000_0000);
        } else {
            assert(power(from + 1) == 2 * power(from));
            assert(number * (2 * power(from)) == 2 * (number * power(from))) by (nonlinear_arith);
            lemma_whole_digits(number, from + 1);
        }
    }
}

proof fn lemma_whole_scale_falls(small: int, large: int, from: nat)
    requires
        1 <= small <= large,
        from <= 52,
    ensures
        whole_scale(large, from) <= whole_scale(small, from),
    decreases 52 - from,
{
    lemma_power_positive(from);
    assert(small * power(from) <= large * power(from)) by (nonlinear_arith)
        requires
            small <= large,
            power(from) >= 0,
    ;
    if from < 52 && small * power(from) < 0x10_0000_0000_0000 {
        if large * power(from) >= 0x10_0000_0000_0000 {
            lemma_whole_scale_rises(small, from + 1);
        } else {
            lemma_whole_scale_falls(small, large, from + 1);
        }
    }
}

proof fn lemma_whole_scale_rises(number: int, from: nat)
    requires
        from <= 52,
    ensures
        from <= whole_scale(number, from),
    decreases 52 - from,
{
    if from < 52 && number * power(from) < 0x10_0000_0000_0000 {
        lemma_whole_scale_rises(number, from + 1);
    }
}

/// Of two whole numbers the larger has the larger pattern.
pub proof fn lemma_whole_numbers_grow(small: int, large: int)
    requires
        0 <= small < large <= 360,
    ensures
        whole_number(small) < whole_number(large),
{
    law_whole_numbers_have_their_pattern(large);
    assert(large * power(0) == large) by (nonlinear_arith)
        requires
            power(0) == 1,
    ;
    lemma_whole_digits(large, 0);
    let scale = whole_scale(large, 0);
    if small > 0 {
        assert(small * power(0) == small) by (nonlinear_arith)
            requires
                power(0) == 1,
        ;
        lemma_whole_digits(small, 0);
        lemma_whole_scale_falls(small, large, 0);
        let other = whole_scale(small, 0);
        lemma_power_positive(scale);
        if scale == other {
            assert(small * power(scale) < large * power(scale)) by (nonlinear_arith)
                requires
                    small < large,
                    power(scale) >= 1,
            ;
        }
    }
}

/// The patterns of one and of a full circle in degrees.
pub proof fn lemma_known_patterns()
    ensures
        whole_number(1) == 0x3ff0_0000_0000_0000,
        whole_number(360) == 0x4076_8000_0000_0000,
{
    lemma_power_69();
    lemma_power_add(32, 12);
    lemma_power_add(32, 11);
    lemma_power_add(32, 13);
    reveal_with_fuel(power, 33);
    assert(power(44) == 0x1000_0000_0000);
    assert(power(43) == 0x800_0000_0000);
    assert(power(45) == 0x2000_0000_0000);
    assert(power(51) * 2 == power(52)) by {
        lemma_power_add(51, 1);
    }
    lemma_whole_digits(1, 0);
    let one = whole_scale(1, 0);
    if one < 52 {
        lemma_power_grows(one, 51);
    }
    lemma_whole_digits(360, 0);
    let circle = whole_scale(360, 0);
    if circle < 44 {
        lemma_power_grows(circle, 43);
        assert(360 * power(circle) <= 360 * power(43));
    } else if circle > 44 {
        lemma_power_grows(45, circle);
        assert(360 * power(circle) >= 360 * power(45));
    }
}

/// The fraction of the day that a second stands for is the double nearest to the
/// quotient: its significand, of fifty-three digits, is off by half a step at most.
pub proof fn law_fractions_are_the_nearest_doubles(second: int)
    requires
        1 <= second <= 86_400,
    ensures
        0 <= day_fraction(second) < NEGATIVE_ZERO,
        ({
            let exponent = day_fraction(second) / 0x10_0000_0000_0000;
            let significand = day_fraction(second) % 0x10_0000_0000_0000 + 0x10_0000_0000_0000;
            &&& 1 <= exponent <= 1075
            &&& -86_400 <= 2 * (significand * 86_400 - second * power((1075 - exponent) as nat))
                <= 86_400
        }),
        day_fraction(0) == 0,
        second < 86_400 ==> day_fraction(second) < ONE,
{
    lemma_fraction_range(second);
    lemma_scale(second, 52);
    lemma_fraction_at_most_one(second);
    let scale = scale_from(second, 52);
    let dividend = second * power(scale);
    let nearest = rounded(dividend, 86_400);
    lemma_power_69();
    assert(day_fraction(second) == (1075 - scale) * 0x10_0000_0000_0000 + nearest
        - 0x10_0000_0000_0000);
    if day_fraction(second) < (1076 - scale) * 0x10_0000_0000_0000 {
        assert(day_fraction(second) / 0x10_0000_0000_0000 == 1075 - scale);
    } else {
        assert(nearest == 0x20_0000_0000_0000);
        assert(day_fraction(second) / 0x10_0000_0000_0000 == 1076 - scale);
        assert(scale >= 1);
        let half = power((scale - 1) as nat);
        assert(power(scale) == 2 * half);
        assert(second * (2 * half) == 2 * (second * half)) by (nonlinear_arith);
    }
}

/// A time takes effect at the first second of the day whose fraction is not before it.
pub proof fn law_times_take_effect_at_the_first_second_not_before_them(time: u64, earlier: int)
    requires
        time < ONE,
    ensures
        0 <= boundary_second(time) <= 86_400,
        time <= day_fraction(boundary_second(time)),
        0 <= earlier < boundary_second(time) ==> day_fraction(earlier) < time,
{
    lemma_boundaries_lie_in_the_day(time);
    lemma_fraction_at_most_one(86_400);
    lemma_boundary_is_first(time, 0, earlier);
}

proof fn lemma_boundary_is_first(time: u64, from: int, earlier: int)
    requires
        0 <= from <= 86_400,
    ensures
        from <= boundary_from(time, from) <= 86_400,
        boundary_from(time, from) < 86_400 ==> time <= day_fraction(boundary_from(time, from)),
        from <= earlier < boundary_from(time, from) ==> day_fraction(earlier) < time,
    decreases 86_400 - from,
{
    if from < 86_400 && time > day_fraction(from) {
        lemma_boundary_is_first(time, from + 1, earlier);
    }
}

} // verus!
