//! Points in time and spans as the database compares them: in days, as doubles.
use vstd::prelude::*;
use crate::figures::{round, rounded, rounding_is_near, rounding_keeps_close, spacing};
use crate::time::FIRST_MILLI;

verus! {

/// One day, for doubles that are counted in units of 2 to the power of -71.
pub const DAY: u128 = 0x80_0000_0000_0000_0000;

/// The milliseconds from the first that the database can reckon with; none for an earlier time, and
/// more than it can reckon with for a later one.
pub open spec fn reckoned_millis(millis: int) -> nat {
    if millis < FIRST_MILLI {
        0
    } else if millis - FIRST_MILLI > 0x2_0000_0000_0000 {
        0x2_0000_0000_0000
    } else {
        (millis - FIRST_MILLI) as nat
    }
}

/// The day of a point in time, with its fraction.
pub open spec fn day_of(millis: int) -> nat {
    rounded(reckoned_millis(millis) * DAY as nat, 86400000)
}

/// A span of seconds in days.
pub open spec fn days_in(seconds: nat) -> nat {
    rounded(rounded(seconds * DAY as nat, 1), 86400)
}

/// Whether a day is one of so many before another, or later.
pub open spec fn not_before(day: nat, other: nat, span: nat) -> bool {
    span > other || day >= rounded((other - span) as nat, 1)
}

/// The day a span after another.
pub open spec fn later_day(day: nat, span: nat) -> nat {
    rounded(day + span, 1)
}

/// A bound of days that are reckoned with, beyond which spans are not worked out.
pub open spec fn bound() -> nat {
    0x8000_0000_0000_0000_0000_0000
}

pub fn day(millis: i64) -> (r: u128)
    ensures
        r == day_of(millis as int),
        r <= bound(),
{
    let since: i128 = millis as i128 - FIRST_MILLI as i128;
    let capped: u128 = if since < 0 {
        0
    } else if since > 0x2_0000_0000_0000 {
        0x2_0000_0000_0000
    } else {
        since as u128
    };
    round(capped * DAY, 86400000)
}

/// Spans that are longer than all time that is reckoned with are beyond every day.
proof fn long_spans_are_beyond(seconds: nat)
    requires
        seconds > 0x8000_0000_0000,
    ensures
        days_in(seconds) >= 8 * bound(),
{
    let n = seconds * DAY as nat;
    rounding_is_near(n, 1);
    assert(n >= 0x8000_0000_0000 * 0x80_0000_0000_0000_0000) by (nonlinear_arith)
        requires
            n == seconds * 0x80_0000_0000_0000_0000,
            seconds > 0x8000_0000_0000,
    ;
    rounding_is_near(rounded(n, 1), 86400);
}

/// A span in days, where it is no longer than all time that is reckoned with.
pub fn span(seconds: i64) -> (r: Option<u128>)
    requires
        seconds >= 0,
    ensures
        match r {
            Some(days) => days == days_in(seconds as nat) && days <= 0x200 * bound(),
            None => days_in(seconds as nat) >= 8 * bound() && seconds > 0x8000_0000_0000,
        },
{
    if seconds > 0x8000_0000_0000 {
        proof {
            long_spans_are_beyond(seconds as nat);
        }
        return None;
    }
    let exact = round(seconds as u128 * DAY, 1);
    Some(round(exact, 86400))
}

pub fn is_not_before(day: u128, other: u128, seconds: i64) -> (r: bool)
    requires
        seconds >= 0,
        other <= bound(),
    ensures
        r == not_before(day as nat, other as nat, days_in(seconds as nat)),
{
    match span(seconds) {
        Some(days) => days > other || day >= round(other - days, 1),
        None => true,
    }
}

/// Whether a day is after another by more than a span.
pub fn is_after(day: u128, other: u128, seconds: i64) -> (r: bool)
    requires
        seconds >= 0,
        other <= bound(),
        day <= bound(),
    ensures
        r == (day > later_day(other as nat, days_in(seconds as nat))),
{
    match span(seconds) {
        Some(days) => day > round(other + days, 1),
        None => {
            proof {
                rounding_is_near((other + days_in(seconds as nat)) as nat, 1);
            }
            false
        },
    }
}

/// Whether a day is after another by more than two spans together.
pub fn is_after_both(day: u128, other: u128, first: i64, second: i64) -> (r: bool)
    requires
        first >= 0,
        0 <= second <= 0x8000_0000_0000,
        other <= bound(),
        day <= bound(),
    ensures
        r == (day > later_day(
            later_day(other as nat, days_in(first as nat)),
            days_in(second as nat),
        )),
{
    match (span(first), span(second)) {
        (Some(a), Some(b)) => day > round(round(other + a, 1) + b, 1),
        _ => {
            proof {
                let reached = later_day(other as nat, days_in(first as nat));
                rounding_is_near((other + days_in(first as nat)) as nat, 1);
                rounding_is_near(reached + days_in(second as nat), 1);
            }
            false
        },
    }
}

proof fn day_is_close(millis: int)
    requires
        FIRST_MILLI <= millis <= 253402300799999,
    ensures
        day_of(millis) * 86400000 <= (millis - FIRST_MILLI) * DAY + 86400000 * 0x200_0000_0000,
        (millis - FIRST_MILLI) * DAY <= day_of(millis) * 86400000 + 86400000 * 0x200_0000_0000,
        day_of(millis) <= 0x4000_0000_0000_0000_0000_0000,
{
    let m = reckoned_millis(millis);
    let n = m * DAY as nat;
    rounding_keeps_close(n, 86400000);
    let s = spacing(n / 86400000);
    assert(n <= 464269060799999 * 0x80_0000_0000_0000_0000) by (nonlinear_arith)
        requires
            n == m * 0x80_0000_0000_0000_0000,
            m <= 464269060799999,
    ;
    assert(s <= 0x400_0000_0000);
    assert(86400000 * s <= 86400000 * 0x400_0000_0000) by (nonlinear_arith)
        requires
            s <= 0x400_0000_0000,
    ;
}

proof fn span_is_close(seconds: nat)
    requires
        seconds <= 0x2000_0000,
    ensures
        days_in(seconds) * 86400000 <= seconds * 1000 * DAY + 0x1000_0000_0000_0000,
        seconds * 1000 * DAY <= days_in(seconds) * 86400000 + 0x1000_0000_0000_0000,
        days_in(seconds) <= 0x20_0000_0000_0000_0000_0000,
{
    let n = seconds * DAY as nat;
    assert(n <= 0x2000_0000 * 0x80_0000_0000_0000_0000) by (nonlinear_arith)
        requires
            n == seconds * 0x80_0000_0000_0000_0000,
            seconds <= 0x2000_0000,
    ;
    rounding_keeps_close(n, 1);
    let a = spacing(n / 1);
    assert(a <= 0x1_0000_0000_0000);
    assert(1 * a == a && rounded(n, 1) * 1 == rounded(n, 1));
    let x = rounded(n, 1);
    rounding_keeps_close(x, 86400);
    let b = spacing(x / 86400);
    assert(b <= 0x1_0000_0000);
    assert(86400 * b <= 86400 * 0x1_0000_0000) by (nonlinear_arith)
        requires
            b <= 0x1_0000_0000,
    ;
}

proof fn sum_is_close(n: nat)
    requires
        n <= 0x6000_0000_0000_0000_0000_0000,
    ensures
        rounded(n, 1) * 86400000 <= n * 86400000 + 86400000 * 0x400_0000_0000,
        n * 86400000 <= rounded(n, 1) * 86400000 + 86400000 * 0x400_0000_0000,
        rounded(n, 1) <= n + 0x400_0000_0000,
{
    rounding_keeps_close(n, 1);
    let s = spacing(n / 1);
    assert(s <= 0x800_0000_0000);
    assert(1 * s == s && rounded(n, 1) * 1 == rounded(n, 1));
}

/// A time is one of so many seconds before another, or later, where it is by more than a millisecond,
/// and not where it is too early by more than a millisecond: for all times from the first that is
/// reckoned with to the last, and spans of up to seventeen years.
pub proof fn days_tell_how_long_ago(millis: int, now: int, seconds: nat)
    requires
        FIRST_MILLI <= millis <= 253402300799999,
        FIRST_MILLI + 0x2000_0000 * 1000 + 1000 <= now <= 253402300799999,
        seconds <= 0x2000_0000,
    ensures
        millis > now - seconds * 1000 ==> not_before(day_of(millis), day_of(now), days_in(seconds)),
        millis < now - seconds * 1000 ==> !not_before(
            day_of(millis),
            day_of(now),
            days_in(seconds),
        ),
{
    day_is_close(millis);
    day_is_close(now);
    span_is_close(seconds);
    let (day, today, span) = (day_of(millis), day_of(now), days_in(seconds));
    let (m, t) = (millis - FIRST_MILLI, now - FIRST_MILLI);
    assert(t * DAY >= seconds * 1000 * DAY + 1000 * DAY) by (nonlinear_arith)
        requires
            t >= seconds * 1000 + 1000,
            DAY >= 0,
    ;
    assert(span <= today);
    let rest = (today - span) as nat;
    sum_is_close(rest);
    if millis > now - seconds * 1000 {
        assert(m * DAY >= t * DAY - seconds * 1000 * DAY + DAY) by (nonlinear_arith)
            requires
                m >= t - seconds * 1000 + 1,
                DAY >= 0,
        ;
        assert(day * 86400000 >= rounded(rest, 1) * 86400000);
    }
    if millis < now - seconds * 1000 {
        assert(m * DAY <= t * DAY - seconds * 1000 * DAY - DAY) by (nonlinear_arith)
            requires
                m <= t - seconds * 1000 - 1,
                DAY >= 0,
        ;
        assert(day * 86400000 < rounded(rest, 1) * 86400000);
    }
}

/// A time is later than another by more than a span where it is by more than a millisecond, and not
/// where it is not by more than a millisecond.
pub proof fn days_tell_how_far_ahead(millis: int, now: int, seconds: nat)
    requires
        FIRST_MILLI <= millis <= 253402300799999,
        FIRST_MILLI <= now <= 253402300799999,
        seconds <= 0x2000_0000,
    ensures
        millis > now + seconds * 1000 ==> day_of(millis) > later_day(day_of(now), days_in(seconds)),
        millis < now + seconds * 1000 ==> day_of(millis) <= later_day(day_of(now), days_in(seconds)),
{
    day_is_close(millis);
    day_is_close(now);
    span_is_close(seconds);
    let (day, today, span) = (day_of(millis), day_of(now), days_in(seconds));
    let (m, t) = (millis - FIRST_MILLI, now - FIRST_MILLI);
    sum_is_close((today + span) as nat);
    if millis > now + seconds * 1000 {
        assert(m * DAY >= t * DAY + seconds * 1000 * DAY + DAY) by (nonlinear_arith)
            requires
                m >= t + seconds * 1000 + 1,
                DAY >= 0,
        ;
        assert(day * 86400000 > later_day(today, span) * 86400000);
    }
    if millis < now + seconds * 1000 {
        assert(m * DAY <= t * DAY + seconds * 1000 * DAY - DAY) by (nonlinear_arith)
            requires
                m <= t + seconds * 1000 - 1,
                DAY >= 0,
        ;
        assert(day * 86400000 <= later_day(today, span) * 86400000);
    }
}

/// The same of two spans, one after the other.
pub proof fn days_tell_how_far_ahead_of_both(millis: int, now: int, first: nat, second: nat)
    requires
        FIRST_MILLI <= millis <= 253402300799999,
        FIRST_MILLI <= now <= 253402300799999,
        first <= 0x2000_0000,
        second <= 0x2000_0000,
    ensures
        millis > now + first * 1000 + second * 1000 ==> day_of(millis) > later_day(
            later_day(day_of(now), days_in(first)),
            days_in(second),
        ),
        millis < now + first * 1000 + second * 1000 ==> day_of(millis) <= later_day(
            later_day(day_of(now), days_in(first)),
            days_in(second),
        ),
{
    day_is_close(millis);
    day_is_close(now);
    span_is_close(first);
    span_is_close(second);
    let (day, today) = (day_of(millis), day_of(now));
    let (a, b) = (days_in(first), days_in(second));
    let (m, t) = (millis - FIRST_MILLI, now - FIRST_MILLI);
    sum_is_close((today + a) as nat);
    let reached = later_day(today, a);
    sum_is_close((reached + b) as nat);
    if millis > now + first * 1000 + second * 1000 {
        assert(m * DAY >= t * DAY + first * 1000 * DAY + second * 1000 * DAY + DAY)
            by (nonlinear_arith)
            requires
                m >= t + first * 1000 + second * 1000 + 1,
                DAY >= 0,
        ;
        assert(day * 86400000 > later_day(reached, b) * 86400000);
    }
    if millis < now + first * 1000 + second * 1000 {
        assert(m * DAY <= t * DAY + first * 1000 * DAY + second * 1000 * DAY - DAY)
            by (nonlinear_arith)
            requires
                m <= t + first * 1000 + second * 1000 - 1,
                DAY >= 0,
        ;
        assert(day * 86400000 <= later_day(reached, b) * 86400000);
    }
}

} // verus!
