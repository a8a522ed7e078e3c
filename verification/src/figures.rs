//! Counts, spans and texts as the status line shows them.
use vstd::prelude::*;
use vstd::string::StringExecFns;
use crate::double::{
    at_least, is_nan, order, order_goes_by_bits, whole, whole_is_number, whole_percent,
};
use crate::text::{
    char_count, decimal, decimal_text, is_white, raise, string_of, take_chars, upper_char, white,
};

verus! {

/// One, for numbers that are counted in units of 2 to the power of -52: the spacing of doubles from
/// one to two.
pub const ONE: u128 = 0x10_0000_0000_0000;

/// The number nearest to a fraction, the even one of two that are as near.
pub open spec fn nearest(n: nat, d: nat) -> nat {
    if 2 * (n % d) < d {
        n / d
    } else if 2 * (n % d) > d {
        n / d + 1
    } else if (n / d) % 2 == 0 {
        n / d
    } else {
        n / d + 1
    }
}

/// The spacing of doubles, which have 53 bits, at a number.
pub open spec fn spacing(q: nat) -> nat
    decreases q,
{
    if q < 0x20_0000_0000_0000 {
        1
    } else {
        2 * spacing(q / 2)
    }
}

/// The double nearest to a fraction that has all 53 bits in the units that are counted, or is whole.
pub open spec fn rounded(n: nat, d: nat) -> nat {
    let step = spacing(n / d);
    nearest(n, d * step) * step
}

/// A count as a double.
pub open spec fn of_count(count: nat) -> nat {
    rounded(count * ONE as nat, 1)
}

/// A double divided by a thousand until it is below a thousand, at most six times, with the number
/// of divisions.
pub open spec fn scaled_down(x: nat, unit: nat) -> (nat, nat)
    decreases 6 - unit,
{
    if x >= 1000 * ONE as nat && unit < 6 {
        scaled_down(rounded(x, 1000), unit + 1)
    } else {
        (x, unit)
    }
}

/// The integer nearest to a double, the greater of two that are as near.
pub open spec fn half_up(x: nat) -> nat {
    (x + 0x8_0000_0000_0000) / (ONE as nat)
}

pub open spec fn unit_name(unit: nat) -> Seq<char> {
    if unit == 0 {
        ""@
    } else if unit == 1 {
        "k"@
    } else if unit == 2 {
        "M"@
    } else if unit == 3 {
        "B"@
    } else if unit == 4 {
        "T"@
    } else if unit == 5 {
        "P"@
    } else {
        "E"@
    }
}

/// A number of tenths, with its fraction if it has one.
pub open spec fn tenths_text(tenths: nat) -> Seq<char> {
    if tenths % 10 == 0 {
        decimal((tenths / 10) as int)
    } else {
        decimal((tenths / 10) as int) + "."@ + decimal((tenths % 10) as int)
    }
}

/// A scaled count in its unit: with one fraction digit below a hundred, and a thousand as one of the
/// next unit.
pub open spec fn amount(x: nat, unit: nat) -> Seq<char> {
    if x < 100 * ONE as nat {
        tenths_text(half_up(rounded(10 * x, 1))) + unit_name(unit)
    } else if half_up(x) >= 1000 && unit < 6 {
        "1"@ + unit_name(unit + 1)
    } else {
        decimal(half_up(x) as int) + unit_name(unit)
    }
}

/// A count as the status line shows it, in doubles.
pub open spec fn compact(value: int) -> Seq<char> {
    let count = if value < 0 {
        (-value) as nat
    } else {
        value as nat
    };
    let (x, unit) = scaled_down(of_count(count), 0);
    if unit == 0 {
        decimal(value)
    } else if value < 0 {
        "-"@ + amount(x, unit)
    } else {
        amount(x, unit)
    }
}

proof fn spacing_is_small(q: nat)
    ensures
        1 <= spacing(q),
        spacing(q) == 1 || spacing(q) <= q,
    decreases q,
{
    if q >= 0x20_0000_0000_0000 {
        spacing_is_small(q / 2);
    }
}

proof fn rounding_is_close(n: nat, d: nat)
    requires
        d > 0,
    ensures
        rounded(n, d) <= 2 * (n / d) + 1,
        d * spacing(n / d) <= n + d,
{
    let q = n / d;
    let s = spacing(q);
    spacing_is_small(q);
    let k = n / (d * s);
    assert(d * s > 0) by (nonlinear_arith)
        requires
            d > 0,
            s > 0,
    ;
    assert(q * d <= n) by (nonlinear_arith)
        requires
            q == n / d,
            d > 0,
    ;
    assert(d * s <= n + d) by (nonlinear_arith)
        requires
            s <= q + 1,
            q * d <= n,
            d > 0,
    ;
    assert(k * (d * s) <= n) by (nonlinear_arith)
        requires
            k == n / (d * s),
            d * s > 0,
    ;
    assert(k * s <= q) by (nonlinear_arith)
        requires
            k * (d * s) <= n,
            q == n / d,
            d > 0,
    ;
    assert((k + 1) * s <= 2 * q + 1) by (nonlinear_arith)
        requires
            k * s <= q,
            s <= q + 1,
    ;
    assert(nearest(n, d * s) * s <= (k + 1) * s) by (nonlinear_arith)
        requires
            nearest(n, d * s) <= k + 1,
    ;
}

/// What is rounded stays at least half as great.
pub(crate) proof fn rounding_is_near(n: nat, d: nat)
    requires
        d > 0,
    ensures
        2 * rounded(n, d) >= n / d,
{
    let q = n / d;
    let s = spacing(q);
    spacing_is_small(q);
    spacing_is_fine(q);
    let k = n / (d * s);
    assert(d * s > 0) by (nonlinear_arith)
        requires
            d > 0,
            s > 0,
    ;
    assert(q * d <= n < (q + 1) * d) by (nonlinear_arith)
        requires
            q == n / d,
            d > 0,
    ;
    assert(n < (k + 1) * (d * s)) by (nonlinear_arith)
        requires
            k == n / (d * s),
            d * s > 0,
    ;
    assert(q < (k + 1) * s) by (nonlinear_arith)
        requires
            q * d <= n,
            n < (k + 1) * (d * s),
            d > 0,
    ;
    assert((k + 1) * s == k * s + s) by (nonlinear_arith);
    assert(nearest(n, d * s) * s >= k * s) by (nonlinear_arith)
        requires
            nearest(n, d * s) >= k,
    ;
}

proof fn spacing_is_fine(q: nat)
    ensures
        spacing(q) == 1 || spacing(q) * 0x10_0000_0000_0000 <= q,
    decreases q,
{
    if q >= 0x20_0000_0000_0000 {
        spacing_is_fine(q / 2);
    }
}

proof fn small_counts_are_not_scaled(count: nat)
    requires
        count < 1000,
    ensures
        scaled_down(of_count(count), 0).1 == 0,
{
    let n = count * ONE as nat;
    let s = spacing(n / 1);
    assert(n / 1 == n);
    assert(n <= 999 * 0x10_0000_0000_0000) by (nonlinear_arith)
        requires
            n == count * 0x10_0000_0000_0000,
            count < 1000,
    ;
    spacing_is_fine(n);
    spacing_is_small(n);
    assert(s <= 1000);
    assert(1 * s == s);
    let k = n / s;
    assert(k * s <= n) by (nonlinear_arith)
        requires
            k == n / s,
            s > 0,
    ;
    assert(nearest(n, s) * s <= (k + 1) * s) by (nonlinear_arith)
        requires
            nearest(n, s) <= k + 1,
    ;
    assert((k + 1) * s == k * s + s) by (nonlinear_arith);
    assert(of_count(count) <= n + 1000);
}

/// A count below a thousand is shown as its plain number.
pub proof fn small_counts_are_plain(value: int)
    requires
        -1000 < value < 1000,
    ensures
        compact(value) == decimal(value),
{
    small_counts_are_not_scaled(
        if value < 0 {
            (-value) as nat
        } else {
            value as nat
        },
    );
}

/// A negative count is shown as the positive one, with its sign.
pub proof fn signs_are_kept(value: int)
    requires
        value < 0,
    ensures
        compact(value) == "-"@ + compact(-value),
{
    reveal_strlit("-");
    assert("-"@ =~= seq!['-']);
    assert(decimal(value) =~= "-"@ + decimal(-value));
}

fn spacing_at(q: u128) -> (r: u128)
    ensures
        r == spacing(q as nat),
{
    let mut left: u128 = q;
    let mut step: u128 = 1;
    proof {
        spacing_is_small(q as nat);
        assert(1 * spacing(q as nat) == spacing(q as nat));
    }
    while left >= 0x20_0000_0000_0000
        invariant
            step * spacing(left as nat) == spacing(q as nat),
            step >= 1,
            spacing(q as nat) == 1 || spacing(q as nat) <= q,
        decreases left,
    {
        proof {
            spacing_is_small((left / 2) as nat);
            assert(step * (2 * spacing((left / 2) as nat)) == (step * 2) * spacing(
                (left / 2) as nat,
            )) by (nonlinear_arith);
            assert(step * 2 <= (step * 2) * spacing((left / 2) as nat)) by (nonlinear_arith)
                requires
                    spacing((left / 2) as nat) >= 1,
                    step >= 1,
            ;
        }
        step = step * 2;
        left = left / 2;
    }
    assert(step * 1 == step);
    step
}

pub(crate) fn round(n: u128, d: u128) -> (r: u128)
    requires
        0 < d <= 0x4000_0000,
        n <= 0x100_0000_0000_0000_0000_0000_0000_0000,
    ensures
        r == rounded(n as nat, d as nat),
        r <= 2 * (n / d) + 1,
{
    proof {
        rounding_is_close(n as nat, d as nat);
        spacing_is_small((n / d) as nat);
    }
    let step = spacing_at(n / d);
    assert(d * step > 0) by (nonlinear_arith)
        requires
            d > 0,
            step > 0,
    ;
    let whole: u128 = d * step;
    let q: u128 = n / whole;
    let rest: u128 = n % whole;
    let up = 2 * rest > whole || (2 * rest == whole && q % 2 == 1);
    let near: u128 = if up {
        q + 1
    } else {
        q
    };
    assert(near == nearest(n as nat, (d * step) as nat));
    near * step
}

fn unit_text(unit: usize) -> (r: &'static str)
    ensures
        r@ == unit_name(unit as nat),
{
    if unit == 0 {
        ""
    } else if unit == 1 {
        "k"
    } else if unit == 2 {
        "M"
    } else if unit == 3 {
        "B"
    } else if unit == 4 {
        "T"
    } else if unit == 5 {
        "P"
    } else {
        "E"
    }
}

fn amount_text(x: u128, unit: usize) -> (r: String)
    requires
        x <= 0x100_0000_0000_0000_0000_0000_0000_0000,
        unit <= 6,
    ensures
        r@ == amount(x as nat, unit as nat),
{
    if x < 100 * ONE {
        let tenths: u128 = (round(10 * x, 1) + 0x8_0000_0000_0000) / ONE;
        let mut r = decimal_text((tenths / 10) as i128);
        if tenths % 10 != 0 {
            r.append(".");
            r.append(&decimal_text((tenths % 10) as i128));
        }
        r.append(unit_text(unit));
        r
    } else {
        let number: u128 = (x + 0x8_0000_0000_0000) / ONE;
        if number >= 1000 && unit < 6 {
            let mut r = "1".to_owned();
            r.append(unit_text(unit + 1));
            r
        } else {
            let mut r = decimal_text(number as i128);
            r.append(unit_text(unit));
            r
        }
    }
}

/// A count in decimal units: with one fraction digit below a hundred, and promoted to the next unit
/// where it rounds to a thousand.
pub fn compact_count(value: i64) -> (r: String)
    ensures
        r@ == compact(value as int),
{
    let count: u128 = if value < 0 {
        (-(value as i128)) as u128
    } else {
        value as u128
    };
    assert(count * ONE <= 0x8000_0000_0000_0000 * 0x10_0000_0000_0000) by (nonlinear_arith)
        requires
            count <= 0x8000_0000_0000_0000,
            ONE == 0x10_0000_0000_0000,
    ;
    let mut x: u128 = round(count * ONE, 1);
    let mut unit: usize = 0;
    while x >= 1000 * ONE && unit < 6
        invariant
            unit <= 6,
            x <= 0x100_0000_0000_0000_0000_0000_0000_0000,
            scaled_down(x as nat, unit as nat) == scaled_down(
                of_count(
                    (if value < 0 {
                        -value
                    } else {
                        value as int
                    }) as nat,
                ),
                0,
            ),
        decreases 6 - unit,
    {
        x = round(x, 1000);
        unit += 1;
    }
    if unit == 0 {
        return decimal_text(value as i128);
    }
    let shown = amount_text(x, unit);
    if value < 0 {
        let mut r = "-".to_owned();
        r.append(&shown);
        r
    } else {
        shown
    }
}

/// A span of seconds in its two largest units, days and hours or hours and minutes.
pub open spec fn duration_text(seconds: int) -> Seq<char> {
    if seconds < 60 {
        "<1m"@
    } else if seconds >= 86400 {
        decimal(seconds / 86400) + "d "@ + decimal((seconds % 86400) / 3600) + "h"@
    } else if seconds >= 3600 {
        decimal(seconds / 3600) + "h "@ + decimal((seconds % 3600) / 60) + "m"@
    } else {
        decimal(seconds / 60) + "m"@
    }
}

pub fn human_duration(seconds: i64) -> (r: String)
    ensures
        r@ == duration_text(seconds as int),
{
    if seconds < 60 {
        return "<1m".to_owned();
    }
    let days: i64 = seconds / 86400;
    let hours: i64 = (seconds % 86400) / 3600;
    let minutes: i64 = (seconds % 3600) / 60;
    if days > 0 {
        let mut r = decimal_text(days as i128);
        r.append("d ");
        r.append(&decimal_text(hours as i128));
        r.append("h");
        r
    } else if hours > 0 {
        let mut r = decimal_text(hours as i128);
        r.append("h ");
        r.append(&decimal_text(minutes as i128));
        r.append("m");
        r
    } else {
        let mut r = decimal_text(minutes as i128);
        r.append("m");
        r
    }
}

/// The words of a text, one space between them: white space is dropped, and a space stands before
/// each word but the first.
pub open spec fn squeezed(s: Seq<char>) -> Seq<char>
    decreases s.len(),
{
    if s.len() == 0 {
        Seq::empty()
    } else {
        let head = squeezed(s.drop_last());
        if is_white(s.last()) {
            head
        } else if head.len() > 0 && is_white(s[s.len() - 2]) {
            head.push(' ').push(s.last())
        } else {
            head.push(s.last())
        }
    }
}

/// A text on one line: its words, cut after `limit` characters and then marked so.
pub open spec fn single_line(s: Seq<char>, limit: nat) -> Seq<char> {
    if squeezed(s).len() <= limit {
        squeezed(s)
    } else {
        squeezed(s).take(limit as int) + "…"@
    }
}

fn squeeze(s: &str) -> (r: String)
    ensures
        r@ == squeezed(s@),
{
    let mut r: Vec<char> = Vec::new();
    let mut gap = false;
    for c in it: s.chars()
        invariant
            it.seq() == s@,
            r@ == squeezed(s@.take(it.index() as int)),
            gap == (it.index() > 0 && is_white(s@[it.index() - 1])),
    {
        proof {
            let all = s@.take(it.index() as int + 1);
            assert(all.drop_last() =~= s@.take(it.index() as int));
            assert(all.last() == c);
            if it.index() == 0 {
                assert(s@.take(0) =~= Seq::<char>::empty());
                assert(squeezed(s@.take(0)).len() == 0);
            }
        }
        if white(c) {
            gap = true;
        } else {
            if gap && r.len() > 0 {
                r.push(' ');
            }
            r.push(c);
            gap = false;
        }
    }
    assert(s@.take(s@.len() as int) =~= s@);
    string_of(&r)
}

pub fn one_line(value: &str, limit: usize) -> (r: String)
    ensures
        r@ == single_line(value@, limit as nat),
{
    let line = squeeze(value);
    if char_count(&line) <= limit {
        line
    } else {
        let mut r = take_chars(&line, limit);
        r.append("…");
        r
    }
}

/// An ASCII letter or digit.
pub open spec fn is_plain(c: char) -> bool {
    'a' <= c <= 'z' || 'A' <= c <= 'Z' || '0' <= c <= '9'
}

/// The first letter or digit of a text in upper case, else a question mark.
pub open spec fn initial(s: Seq<char>) -> Seq<char>
    decreases s.len(),
{
    if s.len() == 0 {
        "?"@
    } else if is_plain(s[0]) {
        seq![upper_char(s[0])]
    } else {
        initial(s.drop_first())
    }
}

pub fn short_label(label: &str) -> (r: String)
    ensures
        r@ == initial(label@),
{
    assert(label@.skip(0) =~= label@);
    for c in it: label.chars()
        invariant
            it.seq() == label@,
            initial(label@) == initial(label@.skip(it.index() as int)),
    {
        assert(label@.skip(it.index() as int).drop_first() =~= label@.skip(it.index() + 1));
        if ('a' <= c && c <= 'z') || ('A' <= c && c <= 'Z') || ('0' <= c && c <= '9') {
            let mut r = String::new();
            r.push(raise(c));
            assert(r@ =~= seq![upper_char(c)]);
            return r;
        }
    }
    "?".to_owned()
}

/// How many of the first `n` tenths of a bar a percentage fills: a tenth from its middle on.
pub open spec fn cells(used: u64, n: nat) -> nat
    decreases n,
{
    if n == 0 {
        0
    } else if !is_nan(used) && order(used) >= order(whole((10 * n - 5) as nat)) {
        cells(used, (n - 1) as nat) + 1
    } else {
        cells(used, (n - 1) as nat)
    }
}

/// A bar of ten cells, of which so many are filled.
pub open spec fn bar(filled: nat, n: nat) -> Seq<char>
    decreases n,
{
    if n == 0 {
        Seq::empty()
    } else if n <= filled {
        bar(filled, (n - 1) as nat).push('█')
    } else {
        bar(filled, (n - 1) as nat).push('░')
    }
}

pub fn usage_bar(used_percent: u64) -> (r: String)
    ensures
        r@ == bar(cells(used_percent, 10), 10),
        r@.len() == 10,
{
    let mut filled: usize = 0;
    let mut n: usize = 1;
    while n <= 10
        invariant
            1 <= n <= 11,
            filled == cells(used_percent, (n - 1) as nat),
            filled < n,
        decreases 11 - n,
    {
        proof {
            whole_is_number((10 * n - 5) as nat);
        }
        if at_least(used_percent, whole_percent((10 * n - 5) as i128)) {
            filled += 1;
        }
        n += 1;
    }
    let mut r = String::new();
    let mut k: usize = 1;
    while k <= 10
        invariant
            1 <= k <= 11,
            r@ == bar(filled as nat, (k - 1) as nat),
            r@.len() == k - 1,
        decreases 11 - k,
    {
        if k <= filled {
            r.push('█');
        } else {
            r.push('░');
        }
        k += 1;
    }
    r
}

/// A span is shown by its two largest units, from days down to minutes; what is below a minute is said
/// to be.
pub proof fn spans_are_shown_by_two_units(days: int, hours: int, minutes: int, rest: int)
    requires
        0 <= days,
        0 <= hours < 24,
        0 <= minutes < 60,
        0 <= rest < 60,
    ensures
        ({
            let seconds = days * 86400 + hours * 3600 + minutes * 60 + rest;
            &&& days > 0 ==> duration_text(seconds) == decimal(days) + "d "@ + decimal(hours) + "h"@
            &&& days == 0 && hours > 0 ==> duration_text(seconds) == decimal(hours) + "h "@
                + decimal(minutes) + "m"@
            &&& days == 0 && hours == 0 && minutes > 0 ==> duration_text(seconds) == decimal(
                minutes,
            ) + "m"@
            &&& days == 0 && hours == 0 && minutes == 0 ==> duration_text(seconds) == "<1m"@
        }),
{
    let seconds = days * 86400 + hours * 3600 + minutes * 60 + rest;
    let below = hours * 3600 + minutes * 60 + rest;
    assert(0 <= below < 86400);
    assert(seconds / 86400 == days && seconds % 86400 == below) by (nonlinear_arith)
        requires
            seconds == days * 86400 + below,
            0 <= below < 86400,
    ;
    assert(below / 3600 == hours && below % 3600 == minutes * 60 + rest) by (nonlinear_arith)
        requires
            below == hours * 3600 + (minutes * 60 + rest),
            0 <= minutes * 60 + rest < 3600,
    ;
    assert((minutes * 60 + rest) / 60 == minutes) by (nonlinear_arith)
        requires
            0 <= rest < 60,
    ;
}

/// A line has no white space but single spaces, and none at its start or its end.
pub proof fn lines_have_single_spaces(s: Seq<char>)
    ensures
        forall|i: int|
            0 <= i < squeezed(s).len() ==> (#[trigger] squeezed(s)[i] == ' ' || !is_white(
                squeezed(s)[i],
            )),
        forall|i: int|
            0 <= i < squeezed(s).len() - 1 && #[trigger] squeezed(s)[i] == ' ' ==> squeezed(s)[i
                + 1] != ' ',
        squeezed(s).len() > 0 ==> squeezed(s)[0] != ' ' && squeezed(s).last() != ' ',
        squeezed(s).len() <= s.len(),
    decreases s.len(),
{
    if s.len() > 0 {
        lines_have_single_spaces(s.drop_last());
        assert(is_white(' '));
        if s.len() >= 2 {
            assert(s.drop_last().last() == s[s.len() - 2]);
            if is_white(s[s.len() - 2]) {
                lines_have_single_spaces(s.drop_last().drop_last());
                assert(squeezed(s.drop_last()) == squeezed(s.drop_last().drop_last()));
            }
        }
    }
}

/// A line is cut at its limit, and a mark says so; one that fits is kept.
pub proof fn long_lines_are_cut(s: Seq<char>, limit: nat)
    ensures
        squeezed(s).len() <= limit ==> single_line(s, limit) == squeezed(s),
        squeezed(s).len() > limit ==> single_line(s, limit).len() == limit + 1 && single_line(
            s,
            limit,
        ).take(limit as int) == squeezed(s).take(limit as int),
{
    reveal_strlit("…");
    assert("…"@.len() == 1);
    if squeezed(s).len() > limit {
        assert(single_line(s, limit).take(limit as int) =~= squeezed(s).take(limit as int));
    }
}

/// A label is shown by its first letter or digit, as a capital; without one by a question mark.
pub proof fn labels_are_shown_by_their_initial(s: Seq<char>, i: int)
    requires
        0 <= i < s.len(),
        forall|j: int| 0 <= j < i ==> !is_plain(#[trigger] s[j]),
        ('a' <= s[i] <= 'z') || ('A' <= s[i] <= 'Z') || ('0' <= s[i] <= '9'),
    ensures
        initial(s) == seq![upper_char(s[i])],
        initial(Seq::empty()) == "?"@,
    decreases i,
{
    if i > 0 {
        assert(!is_plain(s[0]));
        let rest = s.drop_first();
        assert forall|j: int| 0 <= j < i - 1 implies !is_plain(#[trigger] rest[j]) by {
            assert(rest[j] == s[j + 1]);
        }
        labels_are_shown_by_their_initial(rest, i - 1);
    }
}

/// A bar is full from its start as far as it is filled, and empty from there on.
pub proof fn bars_fill_from_the_start(filled: nat, n: nat, i: int)
    requires
        0 <= i < n,
    ensures
        bar(filled, n).len() == n,
        i < filled ==> bar(filled, n)[i] == '█',
        i >= filled ==> bar(filled, n)[i] == '░',
    decreases n,
{
    if n > 1 {
        if i < n - 1 {
            bars_fill_from_the_start(filled, (n - 1) as nat, i);
        } else {
            bars_fill_from_the_start(filled, (n - 1) as nat, 0);
        }
    } else {
        assert(bar(filled, 0).len() == 0);
    }
}

/// A cell of a bar is filled from the middle of its ten percent on: the more is used, the more cells
/// are, and never more than there are.
pub proof fn more_use_fills_more_cells(used: u64, more: u64, n: nat)
    requires
        used <= more <= 0x7ff0_0000_0000_0000,
    ensures
        cells(used, n) <= cells(more, n) <= n,
        n > 0 && order(used) >= order(whole((10 * n - 5) as nat)) ==> cells(used, n) == cells(
            used,
            (n - 1) as nat,
        ) + 1,
        n > 0 && order(used) < order(whole((10 * n - 5) as nat)) ==> cells(used, n) == cells(
            used,
            (n - 1) as nat,
        ),
        cells(used, 0) == 0,
    decreases n,
{
    order_goes_by_bits(used, more);
    if n > 0 {
        more_use_fills_more_cells(used, more, (n - 1) as nat);
    }
}

/// The names of the units of counts, each a thousand times the one before.
pub proof fn units_have_names()
    ensures
        unit_name(0) == ""@,
        unit_name(1) == "k"@,
        unit_name(2) == "M"@,
        unit_name(3) == "B"@,
        unit_name(4) == "T"@,
        unit_name(5) == "P"@,
        unit_name(6) == "E"@,
{
}

/// Tenths are shown only where there are any.
pub proof fn tenths_are_shown_where_there_are_any(whole_part: nat, tenth: nat)
    requires
        tenth < 10,
    ensures
        tenth == 0 ==> tenths_text(10 * whole_part + tenth) == decimal(whole_part as int),
        tenth > 0 ==> tenths_text(10 * whole_part + tenth) == decimal(whole_part as int) + "."@
            + decimal(tenth as int),
{
}

/// A double is no further from the exact number than half the distance to the next one, which is a
/// 2 to the power of 52nd part of it at most.
pub proof fn rounding_keeps_close(n: nat, d: nat)
    requires
        d > 0,
    ensures
        2 * (rounded(n, d) * d) <= 2 * n + d * spacing(n / d),
        2 * n <= 2 * (rounded(n, d) * d) + d * spacing(n / d),
        spacing(n / d) == 1 || spacing(n / d) * 0x10_0000_0000_0000 <= n / d,
        spacing(n / d) >= 1,
{
    let s = spacing(n / d);
    let unit = d * s;
    spacing_is_small(n / d);
    spacing_is_fine(n / d);
    assert(unit > 0) by (nonlinear_arith)
        requires
            unit == d * s,
            d > 0,
            s > 0,
    ;
    let k = n / unit;
    let r = n % unit;
    let near = nearest(n, unit);
    assert(n == k * unit + r && 0 <= r < unit) by (nonlinear_arith)
        requires
            k == n / unit,
            r == n % unit,
            unit > 0,
    ;
    assert(near == k || near == k + 1);
    assert((k + 1) * unit == k * unit + unit) by (nonlinear_arith);
    assert(near * s * d == near * unit) by (nonlinear_arith)
        requires
            unit == d * s,
    ;
    assert(rounded(n, d) == near * s);
}

/// A number between two whole ones, and near `count` parts of one, `parts` of which make one, rounds
/// to the whole number that is nearest to them.
proof fn halves_round(x: nat, count: nat, parts: nat, slack: nat)
    requires
        parts == 100 || parts == 1000,
        slack < 0x10_0000_0000_0000,
        count % parts != parts / 2,
        x * parts <= count * 0x10_0000_0000_0000 + slack,
        count * 0x10_0000_0000_0000 <= x * parts + slack,
    ensures
        half_up(x) == (count + parts / 2) / parts,
{
    let q = (count + parts / 2) / parts;
    let r = (count + parts / 2) % parts;
    if parts == 100 {
        assert(count + 50 == q * 100 + r && 1 <= r < 100);
        assert(q * 0x10_0000_0000_0000 <= x + 0x8_0000_0000_0000);
        assert(x + 0x8_0000_0000_0000 < (q + 1) * 0x10_0000_0000_0000);
    } else {
        assert(count + 500 == q * 1000 + r && 1 <= r < 1000);
        assert(q * 0x10_0000_0000_0000 <= x + 0x8_0000_0000_0000);
        assert(x + 0x8_0000_0000_0000 < (q + 1) * 0x10_0000_0000_0000);
    }
    assert(half_up(x) == (x + 0x8_0000_0000_0000) / 0x10_0000_0000_0000);
}

proof fn counts_are_close(count: nat)
    requires
        1000 < count < 1000000,
    ensures
        of_count(count) >= 1000 * ONE as nat,
        of_count(count) <= count * 0x10_0000_0000_0000 + 500000,
        count * 0x10_0000_0000_0000 <= of_count(count) + 500000,
{
    let n = count * ONE as nat;
    assert(n == count * 0x10_0000_0000_0000);
    assert(n / 1 == n);
    rounding_keeps_close(n, 1);
    let s = spacing(n);
    assert(1 * s == s && rounded(n, 1) * 1 == rounded(n, 1));
    assert(s <= 1000000);
}

proof fn thousandths_are_close(count: nat)
    requires
        1000 < count < 1000000,
    ensures
        rounded(of_count(count), 1000) * 1000 <= count * 0x10_0000_0000_0000 + 1500000,
        count * 0x10_0000_0000_0000 <= rounded(of_count(count), 1000) * 1000 + 1500000,
{
    counts_are_close(count);
    let x = of_count(count);
    rounding_keeps_close(x, 1000);
    let b = spacing(x / 1000);
    assert(b <= 1001);
    assert(1000 * b <= 1001000) by (nonlinear_arith)
        requires
            b <= 1001,
    ;
}

proof fn tenths_are_close(count: nat)
    requires
        1000 < count < 100000,
    ensures
        half_up(rounded(10 * rounded(of_count(count), 1000), 1)) == (count + 50) / 100 || count % 100
            == 50,
{
    thousandths_are_close(count);
    let y = rounded(of_count(count), 1000);
    let w = 10 * y;
    assert(w / 1 == w);
    rounding_keeps_close(w, 1);
    let c = spacing(w);
    let z = rounded(w, 1);
    assert(1 * c == c && z * 1 == z);
    assert(c <= 1001);
    assert(z * 100 <= count * 0x10_0000_0000_0000 + 2000000);
    assert(count * 0x10_0000_0000_0000 <= z * 100 + 2000000);
    if count % 100 != 50 {
        halves_round(z, count, 100, 2000000);
    }
}

/// From a thousand to a hundred thousand, a count is shown in thousands, to the nearest tenth; from
/// there to a million, to the nearest thousand.
pub proof fn thousands_are_shown(count: nat)
    requires
        1000 < count,
    ensures
        count < 100000 && count % 100 != 50 ==> compact(count as int) == tenths_text(
            (count + 50) / 100,
        ) + "k"@,
        100000 < count < 999499 && count % 1000 != 500 ==> compact(count as int) == decimal(
            (count as int + 500) / 1000,
        ) + "k"@,
{
    if count < 999499 {
        counts_are_close(count);
        thousandths_are_close(count);
        let x = of_count(count);
        let y = rounded(x, 1000);
        assert(y < 1000 * 0x10_0000_0000_0000);
        assert(scaled_down(y, 1) == (y, 1nat));
        assert(scaled_down(x, 0) == scaled_down(y, 1));
        if count < 100000 && count % 100 != 50 {
            tenths_are_close(count);
            assert(y < 100 * 0x10_0000_0000_0000);
        }
        if 100000 < count && count % 1000 != 500 {
            assert(y >= 100 * 0x10_0000_0000_0000);
            halves_round(y, count, 1000, 1500000);
        }
    }
}

} // verus!
