//! Quota windows as the upstream reports them.
use vstd::prelude::*;
use crate::double::{
    above, at_least, bits_of_limits, is_nan, limit_percent, order, percent, whole, whole_percent,
};
use crate::json::{Json, JsonNumber, JsonView, member_text, opt_view};
use crate::models::clamped;
use crate::text::{
    chars_of, concat, decimal, decimal_text, decimal_value, decimals_read_back, lower, parse_i64,
    same, to_lower, trim, trimmed, views,
};
use crate::time::{NANOS, date_of_seconds, epoch, is_time, seconds_of, span, whole_seconds};

verus! {

/// One quota window: how much of it is used (a percentage, by the bits of its double), how long it
/// lasts, and when it starts anew.
#[derive(Debug)]
pub struct ParsedUsageWindow {
    pub quota_key: String,
    pub quota_name: String,
    pub source_slot: String,
    pub window_kind: String,
    pub used_percent: u64,
    pub window_seconds: Option<i64>,
    pub reset_at: Option<i128>,
}

pub struct WindowView {
    pub key: Seq<char>,
    pub name: Seq<char>,
    pub slot: Seq<char>,
    pub kind: Seq<char>,
    pub used: u64,
    pub seconds: Option<i64>,
    pub reset_at: Option<i128>,
}

impl View for ParsedUsageWindow {
    type V = WindowView;

    open spec fn view(&self) -> WindowView {
        WindowView {
            key: self.quota_key@,
            name: self.quota_name@,
            slot: self.source_slot@,
            kind: self.window_kind@,
            used: self.used_percent,
            seconds: self.window_seconds,
            reset_at: self.reset_at,
        }
    }
}

pub open spec fn window_views(windows: Seq<ParsedUsageWindow>) -> Seq<WindowView> {
    Seq::new(windows.len(), |i: int| windows[i]@)
}

/// A text that reads as a number, with the bits of that number.
#[derive(Debug)]
pub struct Reading {
    pub text: String,
    pub bits: u64,
}

/// The bits of the first reading of a text.
pub open spec fn reading(readings: Seq<Reading>, text: Seq<char>) -> Option<u64>
    decreases readings.len(),
{
    if readings.len() == 0 {
        None
    } else if readings[0].text@ == text {
        Some(readings[0].bits)
    } else {
        reading(readings.drop_first(), text)
    }
}

fn find_reading(readings: &Vec<Reading>, text: &str) -> (r: Option<u64>)
    ensures
        r == reading(readings@, text@),
{
    let mut i: usize = 0;
    assert(readings@.skip(0) =~= readings@);
    while i < readings.len()
        invariant
            i <= readings.len(),
            reading(readings@, text@) == reading(readings@.skip(i as int), text@),
        decreases readings.len() - i,
    {
        assert(readings@.skip(i as int).drop_first() =~= readings@.skip(i as int + 1));
        if same(&readings[i].text, text) {
            return Some(readings[i].bits);
        }
        i += 1;
    }
    None
}

/// A percentage: a number, or a text that reads as one, limited to 0 and 100.
pub open spec fn percent_of(v: Option<JsonView>, readings: Seq<Reading>) -> Option<u64> {
    match v {
        Some(JsonView::Number(JsonNumber::PosInt(n))) => Some(
            whole(
                if n > 100 {
                    100
                } else {
                    n as nat
                },
            ),
        ),
        Some(JsonView::Number(JsonNumber::NegInt(n))) => Some(
            whole(
                if n < 0 {
                    0
                } else if n > 100 {
                    100
                } else {
                    n as nat
                },
            ),
        ),
        Some(JsonView::Number(JsonNumber::Float(bits))) => Some(percent(bits)),
        Some(JsonView::Str(text)) => match reading(readings, text) {
            Some(bits) => Some(percent(bits)),
            None => None,
        },
        _ => None,
    }
}

fn number(value: Option<&Json>, readings: &Vec<Reading>) -> (r: Option<u64>)
    ensures
        r == percent_of(opt_view(value), readings@),
{
    match value {
        Some(Json::Number(JsonNumber::PosInt(n))) => Some(whole_percent(*n as i128)),
        Some(Json::Number(JsonNumber::NegInt(n))) => Some(whole_percent(*n as i128)),
        Some(Json::Number(JsonNumber::Float(bits))) => Some(limit_percent(*bits)),
        Some(Json::Str(text)) => match find_reading(readings, text) {
            Some(bits) => Some(limit_percent(bits)),
            None => None,
        },
        _ => None,
    }
}

/// An integer: a number, or a text that is a decimal.
pub open spec fn integer_of(v: Option<JsonView>) -> Option<i64> {
    match v {
        Some(JsonView::Number(n)) => JsonView::Number(n).integer(),
        Some(JsonView::Str(text)) => match decimal_value(text) {
            Some(n) => if i64::MIN <= n <= i64::MAX {
                Some(n as i64)
            } else {
                None
            },
            None => None,
        },
        _ => None,
    }
}

fn integer(value: Option<&Json>) -> (r: Option<i64>)
    ensures
        r == integer_of(opt_view(value)),
{
    match value {
        Some(Json::Number(n)) => Json::Number(*n).as_i64(),
        Some(Json::Str(text)) => parse_i64(text),
        _ => None,
    }
}

/// What a window of so many seconds is called.
pub open spec fn kind_name(fallback: Seq<char>, seconds: Option<i64>) -> Seq<char> {
    match seconds {
        Some(n) => if n == 18000 {
            "5h"@
        } else if n == 604800 {
            "7d"@
        } else if n > 0 && n % 86400 == 0 {
            decimal((n / 86400) as int) + "d"@
        } else if n > 0 && n % 3600 == 0 {
            decimal((n / 3600) as int) + "h"@
        } else {
            fallback
        },
        None => fallback,
    }
}

pub fn window_kind(fallback: &str, seconds: Option<i64>) -> (r: String)
    ensures
        r@ == kind_name(fallback@, seconds),
{
    match seconds {
        Some(n) => if n == 18000 {
            "5h".to_owned()
        } else if n == 604800 {
            "7d".to_owned()
        } else if n > 0 && n % 86400 == 0 {
            concat(&decimal_text((n / 86400) as i128), "d")
        } else if n > 0 && n % 3600 == 0 {
            concat(&decimal_text((n / 3600) as i128), "h")
        } else {
            fallback.to_owned()
        },
        None => fallback.to_owned(),
    }
}

pub open spec fn key_char(c: char) -> char {
    if '0' <= c <= '9' || 'a' <= c <= 'z' || 'A' <= c <= 'Z' || c == '_' {
        c
    } else {
        '_'
    }
}

/// A feature name as a key: trimmed, in lower case, and `_` for what is no ASCII letter or digit.
pub open spec fn normal_key(value: Seq<char>) -> Seq<char> {
    let s = lower(trimmed(value));
    Seq::new(s.len(), |i: int| key_char(s[i]))
}

pub fn normalize_key(value: &str) -> (r: String)
    ensures
        r@ == normal_key(value@),
{
    let low = to_lower(&trim(value));
    let chars = chars_of(&low);
    let mut r = String::new();
    let mut i: usize = 0;
    while i < chars.len()
        invariant
            i <= chars.len(),
            chars@ == lower(trimmed(value@)),
            r@ == normal_key(value@).take(i as int),
        decreases chars.len() - i,
    {
        let c = chars[i];
        if ('0' <= c && c <= '9') || ('a' <= c && c <= 'z') || ('A' <= c && c <= 'Z') || c == '_' {
            r.push(c);
        } else {
            r.push('_');
        }
        i += 1;
    }
    r
}

/// When a window starts anew: at the given second, else so many seconds from now.
pub open spec fn reset_of(window: JsonView, now: int) -> Option<i128> {
    let at = match integer_of(window.get("reset_at"@)) {
        Some(n) => epoch(n),
        None => None,
    };
    match at {
        Some(n) => Some((n * NANOS) as i128),
        None => match integer_of(window.get("reset_after_seconds"@)) {
            Some(n) => Some(
                (now + (if n < 0 {
                    0
                } else {
                    n as int
                }) * NANOS) as i128,
            ),
            None => None,
        },
    }
}

/// A quota window, where it says how much is used.
pub open spec fn window_of(
    key: Seq<char>,
    name: Seq<char>,
    slot: Seq<char>,
    window: JsonView,
    now: int,
    readings: Seq<Reading>,
) -> Option<WindowView> {
    match percent_of(window.get("used_percent"@), readings) {
        Some(used) => Some(
            WindowView {
                key,
                name,
                slot,
                kind: kind_name(slot, integer_of(window.get("limit_window_seconds"@))),
                used,
                seconds: integer_of(window.get("limit_window_seconds"@)),
                reset_at: reset_of(window, now),
            },
        ),
        None => None,
    }
}

/// The window of a limit under the given member, as a list of none or one.
pub open spec fn slot_windows(
    key: Seq<char>,
    name: Seq<char>,
    slot: Seq<char>,
    window: Option<JsonView>,
    now: int,
    readings: Seq<Reading>,
) -> Seq<WindowView> {
    match window {
        Some(w) => match window_of(key, name, slot, w, now, readings) {
            Some(found) => seq![found],
            None => Seq::empty(),
        },
        None => Seq::empty(),
    }
}

/// The windows of one limit: the primary one, then the secondary one.
pub open spec fn limit_windows(
    key: Seq<char>,
    name: Seq<char>,
    limit: Option<JsonView>,
    now: int,
    readings: Seq<Reading>,
) -> Seq<WindowView> {
    match limit {
        Some(v) => slot_windows(
            key,
            name,
            "primary"@,
            v.get("primary_window"@),
            now,
            readings,
        ) + slot_windows(
            key,
            name,
            "secondary"@,
            v.get("secondary_window"@),
            now,
            readings,
        ),
        None => Seq::empty(),
    }
}

/// A text that is more than white space.
pub open spec fn filled(text: Option<Seq<char>>) -> Option<Seq<char>> {
    match text {
        Some(t) => if trimmed(t).len() > 0 {
            Some(t)
        } else {
            None
        },
        None => None,
    }
}

/// The windows of the first `n` additional limits.
pub open spec fn additional_windows(
    items: Seq<JsonView>,
    n: int,
    now: int,
    readings: Seq<Reading>,
) -> Seq<WindowView>
    decreases n,
{
    if n <= 0 {
        Seq::empty()
    } else {
        let item = items[n - 1];
        let name = match filled(member_text(item, "limit_name"@)) {
            Some(t) => t,
            None => "Additional quota"@,
        };
        let key = match filled(member_text(item, "metered_feature"@)) {
            Some(t) => normal_key(t),
            None => "additional_"@ + decimal(n - 1),
        };
        additional_windows(items, n - 1, now, readings) + limit_windows(
            key,
            name,
            item.get("rate_limit"@),
            now,
            readings,
        )
    }
}

pub open spec fn same_slot(a: WindowView, b: WindowView) -> bool {
    a.key == b.key && a.slot == b.slot
}

pub open spec fn slot_at(list: Seq<WindowView>, w: WindowView, i: int) -> bool {
    0 <= i < list.len() && same_slot(list[i], w)
}

/// Whether the list holds a window of the same quota and slot.
pub open spec fn holds_slot(list: Seq<WindowView>, w: WindowView) -> bool {
    exists|i: int| slot_at(list, w, i)
}

/// The list with only the first window of each quota and slot.
pub open spec fn first_of_each(list: Seq<WindowView>) -> Seq<WindowView>
    decreases list.len(),
{
    if list.len() == 0 {
        Seq::empty()
    } else {
        let rest = first_of_each(list.drop_last());
        if holds_slot(rest, list.last()) {
            rest
        } else {
            rest.push(list.last())
        }
    }
}

/// All windows that a usage report names.
pub open spec fn report_windows(
    raw: JsonView,
    now: int,
    readings: Seq<Reading>,
) -> Seq<WindowView> {
    let items = match raw.get("additional_rate_limits"@) {
        Some(v) => v.items(),
        None => Seq::empty(),
    };
    limit_windows("codex"@, "Codex"@, raw.get("rate_limit"@), now, readings) + limit_windows(
        "code_review"@,
        "Code review"@,
        raw.get("code_review_rate_limit"@),
        now,
        readings,
    ) + additional_windows(items, items.len() as int, now, readings)
}

fn append_window(
    target: &mut Vec<ParsedUsageWindow>,
    key: &str,
    name: &str,
    slot: &str,
    window: Option<&Json>,
    now: i128,
    readings: &Vec<Reading>,
)
    requires
        is_time(now as int),
    ensures
        window_views(final(target)@) == window_views(old(target)@) + slot_windows(
            key@,
            name@,
            slot@,
            opt_view(window),
            now as int,
            readings@,
        ),
{
    let ghost before = window_views(target@);
    let window = match window {
        Some(window) => window,
        None => {
            assert(window_views(target@) =~= before + Seq::<WindowView>::empty());
            return;
        },
    };
    let used_percent = match number(window.get("used_percent"), readings) {
        Some(used) => used,
        None => {
            assert(window_views(target@) =~= before + Seq::<WindowView>::empty());
            return;
        },
    };
    let window_seconds = integer(window.get("limit_window_seconds"));
    let at = match integer(window.get("reset_at")) {
        Some(seconds) => date_of_seconds(seconds),
        None => None,
    };
    let reset_at: Option<i128> = match at {
        Some(seconds) => Some(seconds as i128 * NANOS),
        None => match integer(window.get("reset_after_seconds")) {
            Some(seconds) => {
                let later: i128 = if seconds < 0 { 0 } else { seconds as i128 };
                Some(now + later * NANOS)
            },
            None => None,
        },
    };
    target.push(
        ParsedUsageWindow {
            quota_key: key.to_owned(),
            quota_name: name.to_owned(),
            source_slot: slot.to_owned(),
            window_kind: window_kind(slot, window_seconds),
            used_percent,
            window_seconds,
            reset_at,
        },
    );
    proof {
        let w = window_of(key@, name@, slot@, window@, now as int, readings@)->0;
        assert(window_views(target@) =~= before + seq![w]);
    }
}

fn append_rate_limit(
    target: &mut Vec<ParsedUsageWindow>,
    key: &str,
    name: &str,
    limit: Option<&Json>,
    now: i128,
    readings: &Vec<Reading>,
)
    requires
        is_time(now as int),
    ensures
        window_views(final(target)@) == window_views(old(target)@) + limit_windows(
            key@,
            name@,
            opt_view(limit),
            now as int,
            readings@,
        ),
{
    let ghost before = window_views(target@);
    match limit {
        Some(v) => {
            append_window(target, key, name, "primary", v.get("primary_window"), now, readings);
            append_window(target, key, name, "secondary", v.get("secondary_window"), now, readings);
            proof {
                let a = slot_windows(
                    key@,
                    name@,
                    "primary"@,
                    v@.get("primary_window"@),
                    now as int,
                    readings@,
                );
                let b = slot_windows(
                    key@,
                    name@,
                    "secondary"@,
                    v@.get("secondary_window"@),
                    now as int,
                    readings@,
                );
                assert(before + a + b =~= before + (a + b));
            }
        },
        None => {
            assert(window_views(target@) =~= before + Seq::<WindowView>::empty());
        },
    }
}

fn is_filled(text: &str) -> (r: bool)
    ensures
        r == (trimmed(text@).len() > 0),
{
    !trim(text).as_str().is_empty()
}

/// Whether a window of the same quota and slot is in the list.
fn has_slot(list: &Vec<ParsedUsageWindow>, window: &ParsedUsageWindow) -> (r: bool)
    ensures
        r == holds_slot(window_views(list@), window@),
{
    let mut i: usize = 0;
    while i < list.len()
        invariant
            i <= list.len(),
            forall|j: int| 0 <= j < i ==> !#[trigger] slot_at(window_views(list@), window@, j),
        decreases list.len() - i,
    {
        if same(&list[i].quota_key, &window.quota_key) && same(
            &list[i].source_slot,
            &window.source_slot,
        ) {
            assert(slot_at(window_views(list@), window@, i as int));
            return true;
        }
        i += 1;
    }
    false
}

/// All windows that a usage report names, the first of each quota and slot. Texts in place of a
/// percentage are read as `readings` says.
pub fn parse_usage_windows(raw: &Json, now: i128, readings: &Vec<Reading>) -> (r: Vec<
    ParsedUsageWindow,
>)
    requires
        is_time(now as int),
    ensures
        window_views(r@) == first_of_each(report_windows(raw@, now as int, readings@)),
{
    let mut windows: Vec<ParsedUsageWindow> = Vec::new();
    let ghost none = window_views(windows@);
    append_rate_limit(&mut windows, "codex", "Codex", raw.get("rate_limit"), now, readings);
    append_rate_limit(
        &mut windows,
        "code_review",
        "Code review",
        raw.get("code_review_rate_limit"),
        now,
        readings,
    );
    let ghost core = window_views(windows@);
    let ghost items = match raw@.get("additional_rate_limits"@) {
        Some(v) => v.items(),
        None => Seq::empty(),
    };
    proof {
        let a = limit_windows("codex"@, "Codex"@, raw@.get("rate_limit"@), now as int, readings@);
        let b = limit_windows(
            "code_review"@,
            "Code review"@,
            raw@.get("code_review_rate_limit"@),
            now as int,
            readings@,
        );
        assert(core =~= a + b);
        assert(core =~= core + additional_windows(items, 0, now as int, readings@));
    }
    if let Some(Json::Array(list)) = raw.get("additional_rate_limits") {
        assert(items.len() == list.len());
        assert forall|k: int| 0 <= k < list.len() implies #[trigger] items[k] == list@[k]@ by {}
        let mut i: usize = 0;
        while i < list.len()
            invariant
                i <= list.len(),
                is_time(now as int),
                items.len() == list.len(),
                forall|k: int| 0 <= k < list.len() ==> #[trigger] items[k] == list@[k]@,
                window_views(windows@) == core + additional_windows(
                    items,
                    i as int,
                    now as int,
                    readings@,
                ),
            decreases list.len() - i,
        {
            let item = &list[i];
            let ghost seen = window_views(windows@);
            assert(items[i as int] == item@);
            let name = match item.get_str("limit_name") {
                Some(text) => if is_filled(text) {
                    text.to_owned()
                } else {
                    "Additional quota".to_owned()
                },
                None => "Additional quota".to_owned(),
            };
            let key = match item.get_str("metered_feature") {
                Some(text) => if is_filled(text) {
                    normalize_key(text)
                } else {
                    concat("additional_", &decimal_text(i as i128))
                },
                None => concat("additional_", &decimal_text(i as i128)),
            };
            append_rate_limit(&mut windows, &key, &name, item.get("rate_limit"), now, readings);
            proof {
                let more = limit_windows(
                    key@,
                    name@,
                    item@.get("rate_limit"@),
                    now as int,
                    readings@,
                );
                let so_far = additional_windows(items, i as int, now as int, readings@);
                assert(core + so_far + more =~= core + (so_far + more));
            }
            i += 1;
        }
    } else {
        assert(items.len() == 0);
    }
    let ghost all = window_views(windows@);
    assert(all =~= report_windows(raw@, now as int, readings@));
    let mut out: Vec<ParsedUsageWindow> = Vec::new();
    let mut rest = windows;
    assert(all.take(0) =~= Seq::empty());
    assert(window_views(out@) =~= Seq::empty());
    let ghost mut done: int = 0;
    while rest.len() > 0
        invariant
            0 <= done <= all.len(),
            rest.len() == all.len() - done,
            window_views(rest@) == all.skip(done),
            window_views(out@) == first_of_each(all.take(done)),
        decreases rest.len(),
    {
        let ghost before = window_views(rest@);
        let window = rest.remove(0);
        proof {
            assert(window@ == before[0]);
            assert(window@ == all[done]);
            assert(window_views(rest@) =~= before.drop_first());
            assert(before.drop_first() =~= all.skip(done + 1));
            assert(all.take(done + 1).drop_last() =~= all.take(done));
            assert(all.take(done + 1).last() == window@);
        }
        if !has_slot(&out, &window) {
            let ghost kept = window_views(out@);
            out.push(window);
            assert(window_views(out@) =~= kept.push(window@));
        }
        proof {
            done = done + 1;
        }
    }
    assert(all.take(all.len() as int) =~= all);
    out
}

/// In a list with the first of each, no quota has a slot twice, and each is from the list.
pub proof fn first_of_each_is_distinct(list: Seq<WindowView>)
    ensures
        forall|i: int, j: int|
            0 <= i < j < first_of_each(list).len() ==> !same_slot(
                #[trigger] first_of_each(list)[i],
                #[trigger] first_of_each(list)[j],
            ),
        forall|i: int|
            0 <= i < first_of_each(list).len() ==> list.contains(#[trigger] first_of_each(list)[i]),
        forall|i: int|
            0 <= i < list.len() ==> holds_slot(first_of_each(list), #[trigger] list[i]),
    decreases list.len(),
{
    if list.len() > 0 {
        let rest = list.drop_last();
        first_of_each_is_distinct(rest);
        let kept = first_of_each(rest);
        let out = first_of_each(list);
        assert forall|i: int| 0 <= i < out.len() implies list.contains(#[trigger] out[i]) by {
            if i < kept.len() {
                assert(rest.contains(kept[i]));
                let k = rest.index_of(kept[i]);
                assert(list[k] == kept[i]);
            } else {
                assert(list[list.len() - 1] == out[i]);
            }
        }
        assert forall|i: int, j: int| 0 <= i < j < out.len() implies !same_slot(
            #[trigger] out[i],
            #[trigger] out[j],
        ) by {
            if j == kept.len() {
                assert(!slot_at(kept, list.last(), i));
            } else {
                assert(!same_slot(kept[i], kept[j]));
            }
        }
        assert forall|i: int| 0 <= i < list.len() implies holds_slot(out, #[trigger] list[i]) by {
            if i < rest.len() {
                assert(rest[i] == list[i]);
                let j = choose|j: int| slot_at(kept, rest[i], j);
                assert(slot_at(out, list[i], j));
            } else if holds_slot(kept, list.last()) {
                let j = choose|j: int| slot_at(kept, list.last(), j);
                assert(slot_at(out, list[i], j));
            } else {
                assert(slot_at(out, list[i], kept.len() as int));
            }
        }
    }
}

/// Whether two reset times are those of one window: at most five minutes apart, or both unknown.
pub open spec fn same_reset(left: Option<i128>, right: Option<i128>) -> bool {
    match (left, right) {
        (Some(a), Some(b)) => -300 <= whole_seconds(a - b) <= 300,
        (None, None) => true,
        _ => false,
    }
}

pub fn same_reset_window(left: Option<i128>, right: Option<i128>) -> (r: bool)
    requires
        left matches Some(a) ==> is_time(a as int),
        right matches Some(b) ==> is_time(b as int),
    ensures
        r == same_reset(left, right),
{
    match (left, right) {
        (Some(a), Some(b)) => {
            let apart = seconds_of(span(b, a));
            -300 <= apart && apart <= 300
        },
        (None, None) => true,
        _ => false,
    }
}

/// The seconds that a window still lasts, from none to all of it.
pub open spec fn remaining_seconds(total: int, reset_at: int, now: int) -> int {
    clamped(whole_seconds(reset_at - now), 0, total)
}

/// How much of a window has passed: the seconds so far and in all, where both can be told.
pub fn elapsed_window(window_seconds: Option<i64>, reset_at: Option<i128>, now: i128) -> (r: Option<
    (i64, i64),
>)
    requires
        is_time(now as int),
        reset_at matches Some(t) ==> is_time(t as int),
    ensures
        match r {
            Some((elapsed, total)) => window_seconds == Some(total) && total > 0 && reset_at is Some
                && elapsed == total - remaining_seconds(total as int, reset_at->0 as int, now as int)
                && 0 <= elapsed <= total,
            None => window_seconds is None || reset_at is None || window_seconds->0 <= 0,
        },
{
    match (window_seconds, reset_at) {
        (Some(total), Some(at)) => {
            if total <= 0 {
                return None;
            }
            let left = seconds_of(span(now, at));
            let remaining: i64 = if left < 0 {
                0
            } else if left > total as i128 {
                total
            } else {
                left as i64
            };
            Some((total - remaining, total))
        },
        _ => None,
    }
}

/// How threatening the use of a window is: by how much is used, else by its pace (one is as fast as
/// can be kept up).
pub open spec fn risk_of(used: u64, ratio: Option<u64>) -> Seq<char> {
    if !is_nan(used) && order(used) >= order(whole(100)) {
        "critical"@
    } else if !is_nan(used) && order(used) >= order(whole(90)) {
        "danger"@
    } else if !is_nan(used) && order(used) >= order(whole(75)) {
        "warning"@
    } else {
        match ratio {
            Some(value) => if !is_nan(value) && order(value) >= order(whole(2)) {
                "danger"@
            } else if !is_nan(value) && order(value) > order(whole(1)) {
                "warning"@
            } else {
                "safe"@
            },
            None => "unknown"@,
        }
    }
}

pub fn risk(used_percent: u64, pace_ratio: Option<u64>) -> (r: &'static str)
    ensures
        r@ == risk_of(used_percent, pace_ratio),
{
    proof {
        crate::double::whole_is_number(100);
        crate::double::whole_is_number(90);
        crate::double::whole_is_number(75);
        crate::double::whole_is_number(2);
        crate::double::whole_is_number(1);
    }
    if at_least(used_percent, whole_percent(100)) {
        "critical"
    } else if at_least(used_percent, whole_percent(90)) {
        "danger"
    } else if at_least(used_percent, whole_percent(75)) {
        "warning"
    } else {
        match pace_ratio {
            Some(value) => if at_least(value, whole_percent(2)) {
                "danger"
            } else if above(value, whole_percent(1)) {
                "warning"
            } else {
                "safe"
            },
            None => "unknown",
        }
    }
}

/// Whether a member of a limit gives its percentage as the text `t`.
pub open spec fn slot_asks(limit: JsonView, slot: Seq<char>, t: Seq<char>) -> bool {
    match limit.get(slot) {
        Some(window) => window.get("used_percent"@) == Some(JsonView::Str(t)),
        None => false,
    }
}

/// Whether a limit gives a percentage as the text `t`.
pub open spec fn limit_asks(limit: Option<JsonView>, t: Seq<char>) -> bool {
    match limit {
        Some(v) => slot_asks(v, "primary_window"@, t) || slot_asks(v, "secondary_window"@, t),
        None => false,
    }
}

/// Whether one of the first `n` additional limits gives a percentage as the text `t`.
pub open spec fn item_asks(items: Seq<JsonView>, n: int, t: Seq<char>) -> bool
    decreases n,
{
    n > 0 && (limit_asks(items[n - 1].get("rate_limit"@), t) || item_asks(items, n - 1, t))
}

/// Whether a usage report gives a percentage as the text `t`.
pub open spec fn report_asks(raw: JsonView, t: Seq<char>) -> bool {
    let items = match raw.get("additional_rate_limits"@) {
        Some(v) => v.items(),
        None => Seq::empty(),
    };
    limit_asks(raw.get("rate_limit"@), t) || limit_asks(raw.get("code_review_rate_limit"@), t)
        || item_asks(items, items.len() as int, t)
}

fn push_text(out: &mut Vec<String>, limit: &Json, slot: &str)
    ensures
        forall|t: Seq<char>| #[trigger]
            views(final(out)@).contains(t) <==> views(old(out)@).contains(t) || slot_asks(
                limit@,
                slot@,
                t,
            ),
{
    let ghost before = views(out@);
    if let Some(window) = limit.get(slot) {
        if let Some(Json::Str(text)) = window.get("used_percent") {
            out.push(text.clone());
            proof {
                let now = views(out@);
                assert(now =~= before.push(text@));
                assert forall|t: Seq<char>| #[trigger]
                    now.contains(t) <==> before.contains(t) || t == text@ by {
                    if before.contains(t) {
                        let k = before.index_of(t);
                        assert(now[k] == t);
                    }
                    if t == text@ {
                        assert(now[before.len() as int] == t);
                    }
                }
                assert forall|t: Seq<char>| slot_asks(limit@, slot@, t) <==> t == text@ by {}
            }
            return;
        }
    }
    assert forall|t: Seq<char>| !slot_asks(limit@, slot@, t) by {}
}

fn push_texts(out: &mut Vec<String>, limit: Option<&Json>)
    ensures
        forall|t: Seq<char>| #[trigger]
            views(final(out)@).contains(t) <==> views(old(out)@).contains(t) || limit_asks(
                opt_view(limit),
                t,
            ),
{
    if let Some(v) = limit {
        push_text(out, v, "primary_window");
        push_text(out, v, "secondary_window");
    }
}

/// The texts that a usage report gives in place of percentages.
pub fn percent_texts(raw: &Json) -> (r: Vec<String>)
    ensures
        forall|t: Seq<char>| #[trigger] views(r@).contains(t) <==> report_asks(raw@, t),
{
    let mut out: Vec<String> = Vec::new();
    push_texts(&mut out, raw.get("rate_limit"));
    push_texts(&mut out, raw.get("code_review_rate_limit"));
    let ghost core = views(out@);
    let ghost items = match raw@.get("additional_rate_limits"@) {
        Some(v) => v.items(),
        None => Seq::empty(),
    };
    if let Some(Json::Array(list)) = raw.get("additional_rate_limits") {
        assert(items.len() == list.len());
        assert forall|k: int| 0 <= k < list.len() implies #[trigger] items[k] == list@[k]@ by {}
        let mut i: usize = 0;
        while i < list.len()
            invariant
                i <= list.len(),
                items.len() == list.len(),
                forall|k: int| 0 <= k < list.len() ==> #[trigger] items[k] == list@[k]@,
                forall|t: Seq<char>| #[trigger]
                    views(out@).contains(t) <==> core.contains(t) || item_asks(items, i as int, t),
            decreases list.len() - i,
        {
            let item = &list[i];
            assert(items[i as int] == item@);
            push_texts(&mut out, item.get("rate_limit"));
            i += 1;
        }
    }
    out
}

/// How fast a window is used: percentages and rates as the bits of doubles.
#[derive(Debug)]
pub struct PaceMetrics {
    pub observed_percent_per_hour: Option<u64>,
    pub sustainable_percent_per_hour: Option<u64>,
    pub pace_ratio: Option<u64>,
    pub headroom_percent: Option<u64>,
    pub projected_exhaustion_at: Option<i128>,
    pub risk: &'static str,
}

/// An earlier reading of a window.
#[derive(Debug, Clone, Copy)]
pub struct EarlierReading {
    pub used_percent: u64,
    pub recorded_at: i128,
    pub reset_at: Option<i128>,
}

/// What the pace of a window is computed from.
#[derive(Debug, Clone, Copy)]
pub struct PaceBasis {
    /// The seconds until the window starts again.
    pub left_seconds: Option<i64>,
    /// The milliseconds since the earlier reading, where use can be held against it.
    pub measured_millis: Option<i64>,
    /// The seconds of the window so far, and in all.
    pub elapsed: Option<(i64, i64)>,
}

/// The milliseconds of a span, its fraction cut off.
pub open spec fn whole_millis(nanos: int) -> int {
    if nanos < 0 {
        -((-nanos) / 1000000)
    } else {
        nanos / 1000000
    }
}

/// Whether an earlier reading is of the same window, not above the current one, and at least a
/// quarter of an hour old.
pub open spec fn measures(
    earlier: EarlierReading,
    used: u64,
    reset_at: Option<i128>,
    fetched_at: i128,
) -> bool {
    &&& same_reset(earlier.reset_at, reset_at)
    &&& is_nan(used) || is_nan(earlier.used_percent) || order(used) >= order(earlier.used_percent)
    &&& whole_millis(fetched_at - earlier.recorded_at) >= 900000
}

/// Whether this is what the pace of a window is computed from.
pub open spec fn is_basis(
    r: PaceBasis,
    current: ParsedUsageWindow,
    fetched_at: i128,
    previous: Option<EarlierReading>,
    now: i128,
) -> bool {
    &&& r.left_seconds == match current.reset_at {
        Some(at) => if whole_seconds(at - now) > 0 {
            Some(whole_seconds(at - now) as i64)
        } else {
            None
        },
        None => None,
    }
    &&& r.measured_millis == match previous {
        Some(p) => if measures(p, current.used_percent, current.reset_at, fetched_at) {
            Some(whole_millis(fetched_at - p.recorded_at) as i64)
        } else {
            None
        },
        None => None,
    }
    &&& match r.elapsed {
        Some((elapsed, total)) => current.window_seconds == Some(total) && total > 0
            && current.reset_at is Some && elapsed == total - remaining_seconds(
            total as int,
            current.reset_at->0 as int,
            now as int,
        ),
        None => current.window_seconds is None || current.reset_at is None
            || current.window_seconds->0 <= 0,
    }
}

/// What the pace of a window is computed from, with the reading before.
pub fn pace_basis(
    current: &ParsedUsageWindow,
    fetched_at: i128,
    previous: Option<EarlierReading>,
    now: i128,
) -> (r: PaceBasis)
    requires
        is_time(now as int),
        is_time(fetched_at as int),
        current.reset_at matches Some(t) ==> is_time(t as int),
        previous matches Some(p) ==> is_time(p.recorded_at as int) && (p.reset_at matches Some(t)
            ==> is_time(t as int)),
    ensures
        is_basis(r, *current, fetched_at, previous, now),
        r.left_seconds == match current.reset_at {
            Some(at) => if whole_seconds(at - now) > 0 {
                Some(whole_seconds(at - now) as i64)
            } else {
                None
            },
            None => None,
        },
        r.measured_millis == match previous {
            Some(p) => if measures(p, current.used_percent, current.reset_at, fetched_at) {
                Some(whole_millis(fetched_at - p.recorded_at) as i64)
            } else {
                None
            },
            None => None,
        },
        match r.elapsed {
            Some((elapsed, total)) => current.window_seconds == Some(total) && total > 0
                && current.reset_at is Some && elapsed == total - remaining_seconds(
                total as int,
                current.reset_at->0 as int,
                now as int,
            ),
            None => current.window_seconds is None || current.reset_at is None
                || current.window_seconds->0 <= 0,
        },
{
    let left_seconds = match current.reset_at {
        Some(at) => {
            let seconds = seconds_of(span(now, at));
            assert(seconds <= 20000000000000);
            if seconds > 0 {
                Some(seconds as i64)
            } else {
                None
            }
        },
        None => None,
    };
    let measured_millis = match previous {
        Some(p) => {
            let nanos = span(p.recorded_at, fetched_at);
            let millis: i128 = if nanos < 0 {
                0
            } else {
                nanos / 1000000
            };
            assert(millis <= 20000000000000000);
            assert(nanos < 0 ==> whole_millis(nanos as int) <= 0);
            if millis >= 900000 && same_reset_window(p.reset_at, current.reset_at) && !above(
                p.used_percent,
                current.used_percent,
            ) {
                Some(millis as i64)
            } else {
                None
            }
        },
        None => None,
    };
    PaceBasis {
        left_seconds,
        measured_millis,
        elapsed: elapsed_window(current.window_seconds, current.reset_at, now),
    }
}

proof fn first_of_a_slot_stays(list: Seq<WindowView>, i: int)
    requires
        0 <= i < list.len(),
        forall|k: int| 0 <= k < i ==> !same_slot(#[trigger] list[k], list[i]),
    ensures
        first_of_each(list).contains(list[i]),
    decreases list.len(),
{
    let rest = list.drop_last();
    let kept = first_of_each(rest);
    let out = first_of_each(list);
    if i < rest.len() {
        assert forall|k: int| 0 <= k < i implies !same_slot(#[trigger] rest[k], rest[i]) by {
            assert(rest[k] == list[k]);
        }
        first_of_a_slot_stays(rest, i);
        let j = kept.index_of(rest[i]);
        assert(out[j] == list[i]);
    } else {
        first_of_each_is_distinct(rest);
        if holds_slot(kept, list.last()) {
            let j = choose|j: int| slot_at(kept, list.last(), j);
            assert(rest.contains(kept[j]));
            let k = rest.index_of(kept[j]);
            assert(list[k] == kept[j]);
            assert(!same_slot(list[k], list[i]));
        }
        assert(out[kept.len() as int] == list[i]);
    }
}

/// A text is read as the first of the readings that is of it, and not at all where none is.
pub proof fn texts_are_read_by_their_reading(readings: Seq<Reading>, text: Seq<char>)
    ensures
        match reading(readings, text) {
            Some(bits) => exists|k: int|
                0 <= k < readings.len() && (#[trigger] readings[k]).text@ == text
                    && readings[k].bits == bits && forall|j: int|
                    0 <= j < k ==> (#[trigger] readings[j]).text@ != text,
            None => forall|k: int|
                0 <= k < readings.len() ==> (#[trigger] readings[k]).text@ != text,
        },
    decreases readings.len(),
{
    if readings.len() > 0 {
        if readings[0].text@ == text {
            assert(readings[0].text@ == text);
        } else {
            let rest = readings.drop_first();
            texts_are_read_by_their_reading(rest, text);
            match reading(rest, text) {
                Some(bits) => {
                    let k = choose|k: int|
                        0 <= k < rest.len() && (#[trigger] rest[k]).text@ == text && rest[k].bits
                            == bits && forall|j: int|
                            0 <= j < k ==> (#[trigger] rest[j]).text@ != text;
                    assert(readings[k + 1] == rest[k]);
                    assert forall|j: int| 0 <= j < k + 1 implies (
                    #[trigger] readings[j]).text@ != text by {
                        if j > 0 {
                            assert(rest[j - 1] == readings[j]);
                        }
                    }
                },
                None => {
                    assert forall|k: int| 0 <= k < readings.len() implies (
                    #[trigger] readings[k]).text@ != text by {
                        if k > 0 {
                            assert(rest[k - 1] == readings[k]);
                        }
                    }
                },
            }
        }
    }
}

/// A whole number of percent is itself, not below zero and not above a hundred; a fraction, or a text
/// that was read as one, is kept within the same bounds; nothing else is a percentage.
pub proof fn percentages_are_read_from_numbers(n: u64, m: i64, v: JsonView, readings: Seq<Reading>)
    ensures
        n <= 100 ==> percent_of(Some(JsonView::Number(JsonNumber::PosInt(n))), readings) == Some(
            whole(n as nat),
        ),
        n > 100 ==> percent_of(Some(JsonView::Number(JsonNumber::PosInt(n))), readings) == Some(
            whole(100),
        ),
        m <= 0 ==> percent_of(Some(JsonView::Number(JsonNumber::NegInt(m))), readings) == Some(
            whole(0),
        ),
        percent_of(Some(JsonView::Number(JsonNumber::Float(n))), readings) == Some(percent(n)),
        v is Number ==> percent_of(Some(v), readings) is Some,
        v is Str ==> (percent_of(Some(v), readings) is Some <==> exists|k: int|
            0 <= k < readings.len() && (#[trigger] readings[k]).text@ == v->Str_0),
        v is Null || v is Bool || v is Array || v is Object ==> percent_of(
            Some(v),
            readings,
        ) is None,
        percent_of(None, readings) is None,
{
    if v is Str {
        texts_are_read_by_their_reading(readings, v->Str_0);
    }
}

proof fn readable_slots_are_listed(
    key: Seq<char>,
    name: Seq<char>,
    limit: JsonView,
    window: JsonView,
    now: int,
    readings: Seq<Reading>,
    primary: bool,
)
    requires
        percent_of(window.get("used_percent"@), readings) is Some,
        primary ==> limit.get("primary_window"@) == Some(window),
        !primary ==> limit.get("secondary_window"@) == Some(window),
    ensures
        ({
            let list = limit_windows(key, name, Some(limit), now, readings);
            let slot = if primary {
                "primary"@
            } else {
                "secondary"@
            };
            let i = if primary {
                0
            } else {
                list.len() - 1
            };
            &&& 0 <= i < list.len() <= 2
            &&& list[i].key == key
            &&& list[i].name == name
            &&& list[i].slot == slot
            &&& Some(list[i].used) == percent_of(window.get("used_percent"@), readings)
            &&& list[i].seconds == integer_of(window.get("limit_window_seconds"@))
            &&& list[i].kind == kind_name(slot, integer_of(window.get("limit_window_seconds"@)))
            &&& list[i].reset_at == reset_of(window, now)
            &&& !primary && list.len() == 2 ==> list[0].slot == "primary"@
        }),
{
}

proof fn slots_belong_to_their_quota(
    key: Seq<char>,
    name: Seq<char>,
    limit: Option<JsonView>,
    now: int,
    readings: Seq<Reading>,
    i: int,
)
    requires
        0 <= i < limit_windows(key, name, limit, now, readings).len(),
    ensures
        limit_windows(key, name, limit, now, readings)[i].key == key,
{
}

/// What a report says of Codex itself and of code review is in the list of its windows: for each of
/// the two, the first window and the second that have a readable use are there, each under its own
/// slot, with the use, the length and the reset that the report gives it.
pub proof fn core_windows_are_listed(
    raw: JsonView,
    limit: JsonView,
    window: JsonView,
    now: int,
    readings: Seq<Reading>,
    review: bool,
    primary: bool,
    list: Seq<WindowView>,
)
    requires
        list == first_of_each(report_windows(raw, now, readings)),
        !review ==> raw.get("rate_limit"@) == Some(limit),
        review ==> raw.get("code_review_rate_limit"@) == Some(limit),
        primary ==> limit.get("primary_window"@) == Some(window),
        !primary ==> limit.get("secondary_window"@) == Some(window),
        window.get("used_percent"@) matches Some(used) && (used is Number || (used is Str && exists|
            k: int,
        |
            0 <= k < readings.len() && (#[trigger] readings[k]).text@ == used->Str_0)),
    ensures
        exists|j: int|
            {
                &&& 0 <= j < list.len()
                &&& (#[trigger] list[j]).key == if review {
                    "code_review"@
                } else {
                    "codex"@
                }
                &&& list[j].name == if review {
                    "Code review"@
                } else {
                    "Codex"@
                }
                &&& list[j].slot == if primary {
                    "primary"@
                } else {
                    "secondary"@
                }
                &&& Some(list[j].used) == percent_of(window.get("used_percent"@), readings)
                &&& list[j].seconds == integer_of(window.get("limit_window_seconds"@))
                &&& list[j].kind == kind_name(list[j].slot, list[j].seconds)
                &&& list[j].reset_at == reset_of(window, now)
            },
{
    reveal_strlit("primary");
    reveal_strlit("secondary");
    reveal_strlit("codex");
    reveal_strlit("code_review");
    assert("primary"@.len() == 7 && "secondary"@.len() == 9);
    assert("codex"@.len() == 5 && "code_review"@.len() == 11);
    let used = window.get("used_percent"@)->0;
    percentages_are_read_from_numbers(0, 0, used, readings);
    let items = match raw.get("additional_rate_limits"@) {
        Some(v) => v.items(),
        None => Seq::empty(),
    };
    let a = limit_windows("codex"@, "Codex"@, raw.get("rate_limit"@), now, readings);
    let b = limit_windows(
        "code_review"@,
        "Code review"@,
        raw.get("code_review_rate_limit"@),
        now,
        readings,
    );
    let c = additional_windows(items, items.len() as int, now, readings);
    let all = report_windows(raw, now, readings);
    assert(all == a + b + c);
    let (key, name, part, base) = if review {
        ("code_review"@, "Code review"@, b, a.len() as int)
    } else {
        ("codex"@, "Codex"@, a, 0)
    };
    readable_slots_are_listed(key, name, limit, window, now, readings, primary);
    let i: int = if primary {
        0
    } else {
        part.len() - 1
    };
    assert(all[base + i] == part[i]);
    assert forall|k: int| 0 <= k < base + i implies !same_slot(
        #[trigger] all[k],
        all[base + i],
    ) by {
        if k < base {
            assert(all[k] == a[k]);
            slots_belong_to_their_quota(
                "codex"@,
                "Codex"@,
                raw.get("rate_limit"@),
                now,
                readings,
                k,
            );
        } else {
            assert(all[k] == part[k - base]);
        }
    }
    first_of_a_slot_stays(all, base + i);
    let j = list.index_of(all[base + i]);
    assert(list[j] == part[i]);
}

proof fn item_windows_are_gathered(
    items: Seq<JsonView>,
    n: int,
    k: int,
    key: Seq<char>,
    name: Seq<char>,
    now: int,
    readings: Seq<Reading>,
    i: int,
)
    requires
        0 <= k < n <= items.len(),
        key == match filled(member_text(items[k], "metered_feature"@)) {
            Some(t) => normal_key(t),
            None => "additional_"@ + decimal(k),
        },
        name == match filled(member_text(items[k], "limit_name"@)) {
            Some(t) => t,
            None => "Additional quota"@,
        },
        0 <= i < limit_windows(key, name, items[k].get("rate_limit"@), now, readings).len(),
    ensures
        additional_windows(items, n, now, readings).contains(
            limit_windows(key, name, items[k].get("rate_limit"@), now, readings)[i],
        ),
    decreases n,
{
    let w = limit_windows(key, name, items[k].get("rate_limit"@), now, readings)[i];
    let before = additional_windows(items, n - 1, now, readings);
    let all = additional_windows(items, n, now, readings);
    if k == n - 1 {
        assert(all[before.len() + i] == w);
    } else {
        item_windows_are_gathered(items, n - 1, k, key, name, now, readings, i);
        let j = before.index_of(w);
        assert(all[j] == w);
    }
}

/// Each additional limit of a report is in the list of its windows: the first window and the second
/// that have a readable use are there under the limit's key, each under its own slot. The key is made
/// from the feature that the limit meters, and where it names none from the place of the limit.
pub proof fn additional_windows_are_listed(
    raw: JsonView,
    items: Seq<JsonView>,
    k: int,
    limit: JsonView,
    window: JsonView,
    now: int,
    readings: Seq<Reading>,
    feature: Seq<char>,
    primary: bool,
    list: Seq<WindowView>,
)
    requires
        list == first_of_each(report_windows(raw, now, readings)),
        raw.get("additional_rate_limits"@) == Some(JsonView::Array(items)),
        0 <= k < items.len(),
        items[k].get("rate_limit"@) == Some(limit),
        primary ==> limit.get("primary_window"@) == Some(window),
        !primary ==> limit.get("secondary_window"@) == Some(window),
        window.get("used_percent"@) matches Some(used) && (used is Number || (used is Str && exists|
            j: int,
        |
            0 <= j < readings.len() && (#[trigger] readings[j]).text@ == used->Str_0)),
    ensures
        items[k].get("metered_feature"@) == Some(JsonView::Str(feature)) && trimmed(feature).len()
            > 0 ==> exists|j: int|
            {
                &&& 0 <= j < list.len()
                &&& (#[trigger] list[j]).key == normal_key(feature)
                &&& list[j].slot == if primary {
                    "primary"@
                } else {
                    "secondary"@
                }
            },
        items[k].get("metered_feature"@) is None ==> exists|j: int|
            {
                &&& 0 <= j < list.len()
                &&& (#[trigger] list[j]).key == "additional_"@ + decimal(k)
                &&& list[j].slot == if primary {
                    "primary"@
                } else {
                    "secondary"@
                }
            },
{
    let used = window.get("used_percent"@)->0;
    percentages_are_read_from_numbers(0, 0, used, readings);
    let key = match filled(member_text(items[k], "metered_feature"@)) {
        Some(t) => normal_key(t),
        None => "additional_"@ + decimal(k),
    };
    let name = match filled(member_text(items[k], "limit_name"@)) {
        Some(t) => t,
        None => "Additional quota"@,
    };
    readable_slots_are_listed(key, name, limit, window, now, readings, primary);
    let part = limit_windows(key, name, Some(limit), now, readings);
    let i: int = if primary {
        0
    } else {
        part.len() - 1
    };
    item_windows_are_gathered(items, items.len() as int, k, key, name, now, readings, i);
    let a = limit_windows("codex"@, "Codex"@, raw.get("rate_limit"@), now, readings);
    let b = limit_windows(
        "code_review"@,
        "Code review"@,
        raw.get("code_review_rate_limit"@),
        now,
        readings,
    );
    let c = additional_windows(items, items.len() as int, now, readings);
    let all = report_windows(raw, now, readings);
    assert(all == a + b + c);
    let at = c.index_of(part[i]);
    assert(all[a.len() + b.len() + at] == part[i]);
    first_of_each_is_distinct(all);
    assert(holds_slot(list, all[a.len() + b.len() + at]));
    let j = choose|j: int| slot_at(list, part[i], j);
    assert(list[j].key == key);
}

proof fn additional_windows_have_slots(
    items: Seq<JsonView>,
    n: int,
    now: int,
    readings: Seq<Reading>,
    w: WindowView,
)
    requires
        0 <= n <= items.len(),
        additional_windows(items, n, now, readings).contains(w),
    ensures
        w.slot == "primary"@ || w.slot == "secondary"@,
    decreases n,
{
    if n > 0 {
        let before = additional_windows(items, n - 1, now, readings);
        let all = additional_windows(items, n, now, readings);
        let i = all.index_of(w);
        if i < before.len() {
            assert(before[i] == w);
            additional_windows_have_slots(items, n - 1, now, readings, w);
        }
    }
}

/// Every window of a report is a first or a second one, and no window is listed that the report does
/// not have: without limits there are no windows.
pub proof fn windows_come_from_limits(raw: JsonView, now: int, readings: Seq<Reading>, j: int)
    requires
        0 <= j < first_of_each(report_windows(raw, now, readings)).len(),
    ensures
        ({
            let w = first_of_each(report_windows(raw, now, readings))[j];
            &&& w.slot == "primary"@ || w.slot == "secondary"@
            &&& raw.get("rate_limit"@) is Some || raw.get("code_review_rate_limit"@) is Some
                || raw.get("additional_rate_limits"@) is Some
            &&& raw.get("additional_rate_limits"@) is None ==> w.key == "codex"@ || w.key
                == "code_review"@
            &&& raw.get("additional_rate_limits"@) is None && w.key == "codex"@ ==> (raw.get(
                "rate_limit"@,
            ) matches Some(limit) && ((w.slot == "primary"@ && limit.get(
                "primary_window"@,
            ) is Some) || (w.slot == "secondary"@ && limit.get("secondary_window"@) is Some)))
            &&& raw.get("additional_rate_limits"@) is None && w.key == "code_review"@ ==> (raw.get(
                "code_review_rate_limit"@,
            ) matches Some(limit) && ((w.slot == "primary"@ && limit.get(
                "primary_window"@,
            ) is Some) || (w.slot == "secondary"@ && limit.get("secondary_window"@) is Some)))
        }),
{
    reveal_strlit("codex");
    reveal_strlit("code_review");
    assert("codex"@.len() == 5 && "code_review"@.len() == 11);
    let all = report_windows(raw, now, readings);
    let list = first_of_each(all);
    first_of_each_is_distinct(all);
    assert(all.contains(list[j]));
    let i = all.index_of(list[j]);
    let items = match raw.get("additional_rate_limits"@) {
        Some(v) => v.items(),
        None => Seq::empty(),
    };
    let a = limit_windows("codex"@, "Codex"@, raw.get("rate_limit"@), now, readings);
    let b = limit_windows(
        "code_review"@,
        "Code review"@,
        raw.get("code_review_rate_limit"@),
        now,
        readings,
    );
    let c = additional_windows(items, items.len() as int, now, readings);
    assert(all == a + b + c);
    if i < a.len() {
        assert(all[i] == a[i]);
    } else if i < a.len() + b.len() {
        assert(all[i] == b[i - a.len()]);
    } else {
        let at = i - a.len() - b.len();
        assert(all[i] == c[at]);
        assert(c.contains(list[j]));
        additional_windows_have_slots(items, items.len() as int, now, readings, list[j]);
    }
}

/// A window is named by its length where that is a whole number of days or of hours, and by its slot
/// otherwise; five hours and seven days are the usual ones.
pub proof fn windows_are_named_by_length(slot: Seq<char>, seconds: i64)
    ensures
        kind_name(slot, Some(18000)) == "5h"@,
        kind_name(slot, Some(604800)) == "7d"@,
        kind_name(slot, None) == slot,
        seconds <= 0 ==> kind_name(slot, Some(seconds)) == slot,
        seconds > 0 && seconds != 604800 && seconds % 86400 == 0 ==> kind_name(slot, Some(seconds))
            == decimal(seconds as int / 86400) + "d"@,
        seconds > 0 && seconds != 18000 && seconds % 86400 != 0 && seconds % 3600 == 0
            ==> kind_name(slot, Some(seconds)) == decimal(seconds as int / 3600) + "h"@,
        seconds > 0 && seconds % 3600 != 0 ==> kind_name(slot, Some(seconds)) == slot,
{
}

/// A key has as many characters as the trimmed name that it is made from, each of them a small letter,
/// a digit or an underscore, and what was one already is kept.
pub proof fn keys_are_plain(value: Seq<char>, i: int)
    requires
        0 <= i < lower(trimmed(value)).len(),
    ensures
        normal_key(value).len() == lower(trimmed(value)).len(),
        ({
            let c = lower(trimmed(value))[i];
            let k = normal_key(value)[i];
            &&& ('0' <= k <= '9') || ('a' <= k <= 'z') || ('A' <= k <= 'Z') || k == '_'
            &&& ('0' <= c <= '9') || ('a' <= c <= 'z') || c == '_' ==> k == c
            &&& c == '-' || c == ' ' || c == '.' || c == '/' ==> k == '_'
        }),
{
}

/// A window starts again at the time that the report gives, and where it gives none that can be read,
/// as many seconds from now as it says, at once where it says less than none.
pub proof fn resets_are_read_from_the_report(window: JsonView, now: int, n: u64, m: i64)
    ensures
        window.get("reset_at"@) == Some(JsonView::Number(JsonNumber::PosInt(n))) && n <= i64::MAX
            && epoch(n as i64) is Some ==> reset_of(window, now) == Some(
            (epoch(n as i64)->0 * NANOS) as i128,
        ),
        window.get("reset_at"@) is None && window.get("reset_after_seconds"@) == Some(
            JsonView::Number(JsonNumber::PosInt(n)),
        ) && n <= i64::MAX ==> reset_of(window, now) == Some((now + n * 1_000_000_000) as i128),
        window.get("reset_at"@) is None && window.get("reset_after_seconds"@) == Some(
            JsonView::Number(JsonNumber::NegInt(m)),
        ) && m < 0 ==> reset_of(window, now) == Some(now as i128),
        window.get("reset_at"@) is None && window.get("reset_after_seconds"@) is None ==> reset_of(
            window,
            now,
        ) is None,
{
}

/// A length is a whole number, or a text that writes one.
pub proof fn lengths_are_whole_numbers(n: u64, m: i64, v: JsonView)
    ensures
        n <= i64::MAX ==> integer_of(Some(JsonView::Number(JsonNumber::PosInt(n)))) == Some(
            n as i64,
        ),
        integer_of(Some(JsonView::Number(JsonNumber::NegInt(m)))) == Some(m),
        integer_of(Some(JsonView::Number(JsonNumber::Float(n)))) is None,
        integer_of(Some(JsonView::Str(decimal(m as int)))) == Some(m),
        v is Null || v is Bool || v is Array || v is Object ==> integer_of(Some(v)) is None,
        integer_of(None) is None,
{
    decimals_read_back(m as int);
}

/// Two resets are those of one window where they are within five minutes of each other, or both
/// unknown.
pub proof fn near_resets_are_one(a: i128, b: i128)
    ensures
        same_reset(None, None),
        !same_reset(Some(a), None),
        !same_reset(None, Some(a)),
        -301 * 1_000_000_000 < a - b < 301 * 1_000_000_000 <==> same_reset(Some(a), Some(b)),
{
}

/// The seconds that are left of a window are those until its reset, not fewer than none and not more
/// than the window has.
pub proof fn remaining_time_is_bounded(total: int, reset_at: int, now: int)
    requires
        total >= 0,
    ensures
        0 <= remaining_seconds(total, reset_at, now) <= total,
        reset_at <= now ==> remaining_seconds(total, reset_at, now) == 0,
        0 <= reset_at - now <= total * 1_000_000_000 ==> remaining_seconds(total, reset_at, now)
            == (reset_at - now) / 1_000_000_000,
        reset_at - now >= total * 1_000_000_000 ==> remaining_seconds(total, reset_at, now)
            == total,
{
}

/// How risky the pace of a window is: critical from a hundred percent of use on, in danger from ninety
/// on, a warning from seventy-five on; below that twice the pace that can be kept up is a danger and
/// anything above that pace a warning; without a known pace the risk is unknown.
pub proof fn risk_goes_by_use_and_pace(used: u64, ratio: u64)
    requires
        used <= 0x7ff0_0000_0000_0000,
        ratio <= 0x7ff0_0000_0000_0000,
    ensures
        used >= 0x4059_0000_0000_0000 ==> risk_of(used, None) == "critical"@ && risk_of(
            used,
            Some(ratio),
        ) == "critical"@,
        0x4056_8000_0000_0000 <= used < 0x4059_0000_0000_0000 ==> risk_of(used, None) == "danger"@
            && risk_of(used, Some(ratio)) == "danger"@,
        0x4052_c000_0000_0000 <= used < 0x4056_8000_0000_0000 ==> risk_of(used, None)
            == "warning"@ && risk_of(used, Some(ratio)) == "warning"@,
        used < 0x4052_c000_0000_0000 ==> risk_of(used, None) == "unknown"@,
        used < 0x4052_c000_0000_0000 && ratio >= 0x4000_0000_0000_0000 ==> risk_of(
            used,
            Some(ratio),
        ) == "danger"@,
        used < 0x4052_c000_0000_0000 && 0x3ff0_0000_0000_0000 < ratio < 0x4000_0000_0000_0000
            ==> risk_of(used, Some(ratio)) == "warning"@,
        used < 0x4052_c000_0000_0000 && ratio <= 0x3ff0_0000_0000_0000 ==> risk_of(
            used,
            Some(ratio),
        ) == "safe"@,
{
    bits_of_limits();
}

/// Use is measured against an earlier reading only of the same window, where it has not gone down, and
/// over fifteen minutes at least.
pub proof fn use_is_measured_over_time(
    earlier: EarlierReading,
    used: u64,
    reset_at: Option<i128>,
    fetched_at: i128,
)
    requires
        used <= 0x7ff0_0000_0000_0000,
        earlier.used_percent <= 0x7ff0_0000_0000_0000,
        measures(earlier, used, reset_at, fetched_at),
    ensures
        used >= earlier.used_percent,
        fetched_at - earlier.recorded_at >= 900 * 1_000_000_000,
        earlier.reset_at is Some <==> reset_at is Some,
        earlier.reset_at is Some ==> -301 * 1_000_000_000 < earlier.reset_at->0 - reset_at->0 < 301
            * 1_000_000_000,
{
}

/// What a pace is computed from: the seconds to the reset, where it is ahead; the milliseconds since an
/// earlier reading that can be held against; and how much of the window is over.
pub proof fn paces_are_computed_from_times(
    r: PaceBasis,
    current: ParsedUsageWindow,
    fetched_at: i128,
    previous: Option<EarlierReading>,
    now: i128,
    total: i64,
    at: i128,
)
    requires
        is_basis(r, current, fetched_at, previous, now),
        is_time(now as int),
        is_time(at as int),
        current.reset_at == Some(at),
        current.window_seconds == Some(total),
        total > 0,
    ensures
        at - now >= 1_000_000_000 ==> r.left_seconds is Some && r.left_seconds->0 == (at - now)
            / 1_000_000_000,
        at - now < 1_000_000_000 ==> r.left_seconds is None,
        r.elapsed matches Some(e) && e.1 == total && 0 <= e.0 <= total && (at <= now ==> e.0
            == total) && (at - now >= total * 1_000_000_000 ==> e.0 == 0),
        previous is None ==> r.measured_millis is None,
        previous matches Some(p) ==> (measures(p, current.used_percent, current.reset_at, fetched_at)
            && fetched_at - p.recorded_at <= 1_000_000_000_000_000_000_000
            ==> r.measured_millis is Some && r.measured_millis->0 == (fetched_at - p.recorded_at)
            / 1_000_000),
{
    remaining_time_is_bounded(total as int, at as int, now as int);
}

/// The texts that have to be read for a report are those that stand for a use in one of its windows.
pub proof fn texts_of_windows_are_read(
    raw: JsonView,
    limit: JsonView,
    window: JsonView,
    text: Seq<char>,
)
    requires
        window.get("used_percent"@) == Some(JsonView::Str(text)),
        limit.get("primary_window"@) == Some(window) || limit.get("secondary_window"@) == Some(
            window,
        ),
    ensures
        raw.get("rate_limit"@) == Some(limit) ==> report_asks(raw, text),
        raw.get("code_review_rate_limit"@) == Some(limit) ==> report_asks(raw, text),
{
}

proof fn item_texts_are_read(items: Seq<JsonView>, n: int, k: int, text: Seq<char>)
    requires
        0 <= k < n <= items.len(),
        limit_asks(items[k].get("rate_limit"@), text),
    ensures
        item_asks(items, n, text),
    decreases n,
{
    if k < n - 1 {
        item_texts_are_read(items, n - 1, k, text);
    }
}

/// So are those of its additional limits.
pub proof fn texts_of_additional_windows_are_read(
    raw: JsonView,
    items: Seq<JsonView>,
    k: int,
    limit: JsonView,
    window: JsonView,
    text: Seq<char>,
)
    requires
        raw.get("additional_rate_limits"@) == Some(JsonView::Array(items)),
        0 <= k < items.len(),
        items[k].get("rate_limit"@) == Some(limit),
        window.get("used_percent"@) == Some(JsonView::Str(text)),
        limit.get("primary_window"@) == Some(window) || limit.get("secondary_window"@) == Some(
            window,
        ),
    ensures
        report_asks(raw, text),
{
    item_texts_are_read(items, items.len() as int, k, text);
}

/// A window is seen under its own names.
pub proof fn usage_windows_are_seen_by_name(w: ParsedUsageWindow)
    ensures
        w@.key == w.quota_key@,
        w@.name == w.quota_name@,
        w@.slot == w.source_slot@,
        w@.kind == w.window_kind@,
        w@.used == w.used_percent,
        w@.seconds == w.window_seconds,
        w@.reset_at == w.reset_at,
{
}

/// A reading of the same window that is not above the current one and a quarter of an hour old is one
/// to measure against, also where the use has stayed the same.
pub proof fn earlier_readings_are_measured_against(
    earlier: EarlierReading,
    used: u64,
    reset_at: Option<i128>,
    fetched_at: i128,
)
    requires
        used <= 0x7ff0_0000_0000_0000,
        earlier.used_percent <= used,
        fetched_at - earlier.recorded_at >= 900 * 1_000_000_000,
        earlier.reset_at == reset_at,
    ensures
        measures(earlier, used, reset_at, fetched_at),
{
}

} // verus!
