//! Points in time: nanoseconds since 1970, in UTC.
use vstd::prelude::*;
use crate::figures::{round, rounded, rounding_keeps_close, spacing};

verus! {

/// The first second that a date can have.
pub const MIN_EPOCH_SECONDS: i64 = -8334601228800;

/// The last second that a date can have.
pub const MAX_EPOCH_SECONDS: i64 = 8210266876799;

pub const NANOS: i128 = 1000000000;

/// A point in time that a date can have.
pub open spec fn is_time(t: int) -> bool {
    MIN_EPOCH_SECONDS * NANOS <= t < (MAX_EPOCH_SECONDS + 1) * NANOS
}

/// The seconds since 1970 as a date, where a date can have them.
pub open spec fn epoch(seconds: i64) -> Option<i64> {
    if MIN_EPOCH_SECONDS <= seconds <= MAX_EPOCH_SECONDS {
        Some(seconds)
    } else {
        None
    }
}

/// Calls `chrono::DateTime::from_timestamp` with no nanoseconds, and gives the seconds of the date
/// back: `None` outside the years -262143 to 262142.
#[verifier::external_body]
pub(crate) fn date_of_seconds(seconds: i64) -> (r: Option<i64>)
    ensures
        r == epoch(seconds),
{
    chrono::DateTime::<chrono::Utc>::from_timestamp(seconds, 0).map(|date| date.timestamp())
}

/// The whole seconds of a span, its fraction cut off.
pub open spec fn whole_seconds(nanos: int) -> int {
    if nanos < 0 {
        -((-nanos) / (NANOS as int))
    } else {
        nanos / (NANOS as int)
    }
}

pub fn seconds_of(nanos: i128) -> (r: i128)
    requires
        nanos > i128::MIN,
    ensures
        r == whole_seconds(nanos as int),
        nanos >= 0 ==> 0 <= r <= nanos,
        nanos < 0 ==> nanos <= r <= 0,
{
    if nanos < 0 {
        -((-nanos) / NANOS)
    } else {
        nanos / NANOS
    }
}

/// From one point in time to another.
pub fn span(from: i128, to: i128) -> (r: i128)
    requires
        is_time(from as int),
        is_time(to as int),
    ensures
        r == to - from,
{
    to - from
}

/// The milliseconds since 1970 as a date, where a date can have them.
pub open spec fn epoch_millis(millis: i64) -> Option<i64> {
    if MIN_EPOCH_SECONDS * 1000 <= millis <= MAX_EPOCH_SECONDS * 1000 + 999 {
        Some(millis)
    } else {
        None
    }
}

/// Calls `chrono::DateTime::from_timestamp_millis`, and gives the milliseconds of the date back:
/// `None` outside the years -262143 to 262142.
#[verifier::external_body]
pub(crate) fn date_of_millis(millis: i64) -> (r: Option<i64>)
    ensures
        r == epoch_millis(millis),
{
    chrono::DateTime::<chrono::Utc>::from_timestamp_millis(millis).map(|date| date.timestamp_millis())
}

/// The seconds and nanoseconds of a date, as `chrono::DateTime::parse_from_rfc3339` reads it.
pub uninterp spec fn rfc3339_date(text: Seq<char>) -> Option<(i64, u32)>;

/// The seconds and nanoseconds of a date, as `chrono::DateTime<chrono::FixedOffset>` reads it from
/// a text.
pub uninterp spec fn text_date(text: Seq<char>) -> Option<(i64, u32)>;

/// Calls `chrono::DateTime::parse_from_rfc3339`, and gives the seconds since 1970 and the
/// nanoseconds of the date. Which texts it takes is named, not spelled out.
#[verifier::external_body]
pub(crate) fn parse_rfc3339(text: &str) -> (r: Option<(i64, u32)>)
    ensures
        r == rfc3339_date(text@),
{
    let date = chrono::DateTime::parse_from_rfc3339(text).ok()?;
    Some((date.timestamp(), date.timestamp_subsec_nanos()))
}

/// Parses a text as a `chrono::DateTime<chrono::FixedOffset>`, and gives the seconds since 1970 and
/// the nanoseconds of the date. Which texts it takes is named, not spelled out.
#[verifier::external_body]
pub(crate) fn parse_date(text: &str) -> (r: Option<(i64, u32)>)
    ensures
        r == text_date(text@),
{
    let date = text.parse::<chrono::DateTime<chrono::FixedOffset>>().ok()?;
    Some((date.timestamp(), date.timestamp_subsec_nanos()))
}

/// A date of so many seconds and nanoseconds since 1970, as the `Debug` of
/// `chrono::DateTime<chrono::Utc>` shows it.
pub uninterp spec fn date_text(seconds: i64, nanos: u32) -> Seq<char>;

/// Writes a date with the `Debug` of `chrono::DateTime<chrono::Utc>`. What it writes is named, not
/// spelled out.
#[verifier::external_body]
fn write_date(seconds: i64, nanos: u32) -> (r: String)
    requires
        MIN_EPOCH_SECONDS <= seconds <= MAX_EPOCH_SECONDS,
        nanos < 1000000000,
    ensures
        r@ == date_text(seconds, nanos),
{
    let date = chrono::DateTime::<chrono::Utc>::from_timestamp(seconds, nanos).expect("a date");
    format!("{date:?}")
}

/// A point in time as logs show it.
pub open spec fn shown_time(t: int) -> Seq<char> {
    date_text((t / (NANOS as int)) as i64, (t % (NANOS as int)) as u32)
}

pub fn show_time(t: i128) -> (r: String)
    requires
        is_time(t as int),
    ensures
        r@ == shown_time(t as int),
{
    let (seconds, nanos): (i128, i128) = if t >= 0 {
        (t / NANOS, t % NANOS)
    } else {
        (-((-(t + 1)) / NANOS) - 1, NANOS - 1 - (-(t + 1)) % NANOS)
    };
    write_date(seconds as i64, nanos as u32)
}

/// A date as a point in time.
pub open spec fn nanos_of(date: (i64, u32)) -> i128 {
    (date.0 * NANOS + date.1) as i128
}

pub fn point_of(date: (i64, u32)) -> (r: i128)
    ensures
        r == nanos_of(date),
{
    date.0 as i128 * NANOS + date.1 as i128
}

/// The first millisecond that the database can reckon with: noon on 24 November 4714 BC.
pub const FIRST_MILLI: i64 = -210866760000000;

/// The last millisecond that the database can reckon with: the end of the year 9999.
pub const LAST_MILLI: i64 = 253402300799999;

/// The start of the year 0, before which years are written with a sign.
pub const YEAR_ZERO: i128 = -62167219200000000000;

/// The start of the year 10000, from which on years are written with five digits.
pub const YEAR_TEN_THOUSAND: i128 = 253402300800000000000;

/// A millisecond, where the database can reckon with it.
pub open spec fn reckoned(millis: int) -> Option<int> {
    if FIRST_MILLI <= millis <= LAST_MILLI {
        Some(millis)
    } else {
        None
    }
}

/// The millisecond so many seconds before another. The database knows none for less than no seconds.
pub open spec fn millis_before(now: int, seconds: int) -> Option<int> {
    if seconds < 0 {
        None
    } else {
        reckoned(now - seconds * 1000)
    }
}

/// The point in time so many seconds after the millisecond of another. The database knows none for
/// less than no seconds.
pub open spec fn time_after(now: int, seconds: int) -> Option<int> {
    if seconds < 0 {
        None
    } else {
        match reckoned(now / 1000000 + seconds * 1000) {
            Some(millis) => Some(millis * 1000000),
            None => None,
        }
    }
}

/// Whether a millisecond is no earlier than so many seconds before another.
pub fn is_since(millis: i64, now: i64, seconds: i64) -> (r: bool)
    ensures
        r == (millis_before(now as int, seconds as int) matches Some(start) && millis >= start),
{
    if seconds < 0 {
        return false;
    }
    let start: i128 = now as i128 - seconds as i128 * 1000;
    FIRST_MILLI as i128 <= start && start <= LAST_MILLI as i128 && millis as i128 >= start
}

/// The point in time so many seconds after another.
pub fn seconds_after(now: i128, seconds: i64) -> (r: Option<i128>)
    requires
        is_time(now as int),
    ensures
        match r {
            Some(t) => time_after(now as int, seconds as int) == Some(t as int),
            None => time_after(now as int, seconds as int) is None,
        },
{
    if seconds < 0 {
        return None;
    }
    let whole: i128 = if now >= 0 {
        now / 1000000
    } else {
        -((999999 - now) / 1000000)
    };
    let millis: i128 = whole + seconds as i128 * 1000;
    if FIRST_MILLI as i128 <= millis && millis <= LAST_MILLI as i128 {
        Some(millis * 1000000)
    } else {
        None
    }
}

/// One, for numbers that are counted in units of 2 to the power of -84.
pub const FINE: u128 = 0x10_0000_0000_0000_0000_0000;

/// The milliseconds of a time within a minute, as the database makes them of its seconds and
/// nanoseconds in doubles: nearest to the exact ones.
pub open spec fn minute_millis(seconds: nat, nanos: nat) -> nat {
    let fraction = rounded(nanos * FINE as nat, 1000000000);
    let sum = rounded(seconds * FINE as nat + fraction, 1);
    let scaled = rounded(1000 * sum, 1);
    rounded(scaled + FINE as nat / 2, 1) / (FINE as nat)
}

/// The milliseconds of a point in time, as the database compares them.
pub open spec fn rounded_millis(t: int) -> int {
    let seconds = t / (NANOS as int);
    let within = seconds % 60;
    (seconds - within) * 1000 + minute_millis(within as nat, (t % (NANOS as int)) as nat)
}

fn within_minute(seconds: u128, nanos: u128) -> (r: u128)
    requires
        seconds < 60,
        nanos < 1000000000,
    ensures
        r == minute_millis(seconds as nat, nanos as nat),
        r <= 0x100_0000,
{
    let fraction = round(nanos * FINE, 1000000000);
    let sum = round(seconds * FINE + fraction, 1);
    let scaled = round(1000 * sum, 1);
    round(scaled + FINE / 2, 1) / FINE
}

/// The milliseconds of a point in time, as the database compares them.
pub fn to_millis(t: i128) -> (r: i128)
    ensures
        r == rounded_millis(t as int),
        i128::MIN / 2 <= r <= i128::MAX / 2,
{
    let (seconds, nanos): (i128, i128) = if t >= 0 {
        (t / NANOS, t % NANOS)
    } else {
        (-((-(t + 1)) / NANOS) - 1, NANOS - 1 - (-(t + 1)) % NANOS)
    };
    let within: i128 = if seconds >= 0 {
        seconds % 60
    } else {
        59 - (-(seconds + 1)) % 60
    };
    (seconds - within) * 1000 + within_minute(within as u128, nanos as u128) as i128
}

/// A span has as many whole seconds as fit into it, in either direction.
pub proof fn spans_have_whole_seconds(seconds: int, nanos: int)
    requires
        seconds >= 0,
        0 <= nanos < 1_000_000_000,
    ensures
        whole_seconds(seconds * 1_000_000_000 + nanos) == seconds,
        whole_seconds(-(seconds * 1_000_000_000 + nanos)) == -seconds,
{
}

/// A time some seconds from now is that many later, by milliseconds; there is none before now, and none
/// after the last year that is reckoned with.
pub proof fn later_times_are_seconds_away(now: int, seconds: int)
    ensures
        seconds < 0 ==> time_after(now, seconds) is None,
        time_after(now, seconds) matches Some(t) ==> t == (now / 1_000_000) * 1_000_000 + seconds
            * 1_000_000_000 && t <= 253402300799999 * 1_000_000,
        seconds >= 0 && now / 1_000_000 + seconds * 1000 <= 253402300799999 && now >= 0
            ==> time_after(now, seconds) is Some,
{
}

/// A time some seconds ago is that many earlier.
pub proof fn earlier_times_are_seconds_away(now: int, seconds: int)
    ensures
        seconds < 0 ==> millis_before(now, seconds) is None,
        millis_before(now, seconds) matches Some(t) ==> t == now - seconds * 1000,
        seconds >= 0 && 0 <= now - seconds * 1000 && now <= 253402300799999 ==> millis_before(
            now,
            seconds,
        ) is Some,
{
}

/// A date is its seconds and its fraction; seconds and milliseconds stand for a date as long as the
/// calendar goes.
pub proof fn dates_are_seconds(seconds: i64, nanos: u32)
    requires
        -8334601228800 <= seconds <= 8210266876799,
        nanos < 1_000_000_000,
    ensures
        nanos_of((seconds, nanos)) == seconds * 1_000_000_000 + nanos,
        epoch(seconds) == Some(seconds),
        is_time(seconds * 1_000_000_000 + nanos),
        epoch_millis((seconds * 1000) as i64) == Some((seconds * 1000) as i64),
{
}

/// Beyond the calendar there is no date.
pub proof fn there_are_no_dates_beyond(seconds: i64)
    ensures
        seconds > 8210266876799 || seconds < -8334601228800 ==> epoch(seconds) is None && !is_time(
            seconds * 1_000_000_000,
        ),
{
}

proof fn rounds_close(n: nat, bound: nat)
    requires
        n <= bound * 0x10_0000_0000_0000,
        bound >= 1,
    ensures
        2 * rounded(n, 1) <= 2 * n + bound,
        2 * n <= 2 * rounded(n, 1) + bound,
{
    assert(n / 1 == n);
    rounding_keeps_close(n, 1);
    let s = spacing(n);
    assert(1 * s == s && rounded(n, 1) * 1 == rounded(n, 1));
    assert(s <= bound);
}

proof fn fractions_are_close(nanos: nat)
    requires
        nanos < 1000000000,
    ensures
        rounded(nanos * FINE as nat, 1000000000) * 1000000000 <= nanos * FINE + 1000000000 * 0x1_0000_0000,
        nanos * FINE <= rounded(nanos * FINE as nat, 1000000000) * 1000000000 + 1000000000
            * 0x1_0000_0000,
{
    let n = nanos * FINE as nat;
    let d: nat = 1000000000;
    rounding_keeps_close(n, d);
    let s = spacing(n / d);
    assert(n / d <= FINE);
    assert(s <= 0x1_0000_0000);
}

proof fn minutes_are_close(seconds: nat, nanos: nat)
    requires
        seconds < 60,
        nanos < 1000000000,
    ensures
        -500000 <= minute_millis(seconds, nanos) * 1000000 - (seconds * 1000000000 + nanos) <= 500000,
{
    let f = FINE as nat;
    let fraction = rounded(nanos * f, 1000000000);
    fractions_are_close(nanos);
    assert(fraction <= 2 * f);
    let a = seconds * f + fraction;
    assert(a <= 62 * 0x1_0000_0000 * 0x10_0000_0000_0000);
    rounds_close(a, 62 * 0x1_0000_0000);
    let sum = rounded(a, 1);
    assert(sum <= 63 * f);
    let b = 1000 * sum;
    rounds_close(b, 63000 * 0x1_0000_0000);
    let scaled = rounded(b, 1);
    assert(scaled <= 64000 * f);
    let c = scaled + f / 2;
    rounds_close(c, 65000 * 0x1_0000_0000);
    let last = rounded(c, 1);
    let whole = last / f;
    assert(whole * 0x10_0000_0000_0000_0000_0000 <= last);
    assert(last < (whole + 1) * 0x10_0000_0000_0000_0000_0000);
    assert(whole == minute_millis(seconds, nanos));
}

/// The milliseconds of a point in time are those nearest to it.
pub proof fn milliseconds_are_nearest(t: int)
    ensures
        -500000 <= rounded_millis(t) * 1000000 - t <= 500000,
{
    let seconds = t / (NANOS as int);
    let within = seconds % 60;
    let nanos = t % (NANOS as int);
    minutes_are_close(within as nat, nanos as nat);
    assert(t == seconds * 1000000000 + nanos);
}

} // verus!
