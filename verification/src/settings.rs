//! Which settings the daemon accepts.
use vstd::prelude::*;
use crate::error::{AppError, AppErrorKind, bad_request};
use crate::json::{Json, JsonNumber, JsonView};
use crate::models::{
    RuntimeSettings, SettingsView, default_settings, setting_names_differ, settings_with,
};
use crate::text::{concat, decimal, decimal_text, decimal_value, is_white, parse_i64, same, trimmed};

verus! {

/// The integer of a value to be stored: a number, or a text that is a decimal.
pub open spec fn plain_int(v: JsonView) -> Option<int> {
    match v.integer() {
        Some(n) => Some(n as int),
        None => match v {
            JsonView::Str(text) => match decimal_value(text) {
                Some(n) => if i64::MIN <= n <= i64::MAX {
                    Some(n)
                } else {
                    None
                },
                None => None,
            },
            _ => None,
        },
    }
}

/// The range of an integer setting.
pub open spec fn setting_range(key: Seq<char>) -> Option<(int, int)> {
    if key == "proxy_max_attempts"@ {
        Some((1, 10))
    } else if key == "rate_limit_cooldown_seconds"@ {
        Some((1, 3600))
    } else if key == "sticky_session_ttl_seconds"@ {
        Some((300, 2592000))
    } else if key == "usage_sample_retention_days"@ {
        Some((1, 365))
    } else {
        None
    }
}

/// Why a setting is refused, where it is.
pub open spec fn setting_refusal(key: Seq<char>, v: JsonView) -> Option<Seq<char>> {
    if key == "routing_strategy"@ {
        if v == JsonView::Str("round_robin"@) || v == JsonView::Str("usage_weighted"@) {
            None
        } else {
            Some("routing_strategy must be round_robin or usage_weighted"@)
        }
    } else {
        match setting_range(key) {
            Some((min, max)) => match plain_int(v) {
                Some(n) => if min <= n <= max {
                    None
                } else {
                    Some(range_text(key, min, max))
                },
                None => Some(range_text(key, min, max)),
            },
            None => Some("unsupported runtime setting '"@ + key + "'"@),
        }
    }
}

pub open spec fn range_text(key: Seq<char>, min: int, max: int) -> Seq<char> {
    key + " must be an integer from "@ + decimal(min) + " through "@ + decimal(max)
}

fn validate_integer_setting(key: &str, value: &Json, min: i64, max: i64) -> (r: Result<(), AppError>)
    ensures
        match r {
            Ok(_) => plain_int(value@) is Some && min <= plain_int(value@)->0 <= max,
            Err(e) => !(plain_int(value@) is Some && min <= plain_int(value@)->0 <= max) && e@ == (
                AppErrorKind::BadRequest,
                range_text(key@, min as int, max as int),
            ),
        },
{
    let parsed: Option<i64> = match value.as_i64() {
        Some(n) => Some(n),
        None => match value {
            Json::Str(text) => parse_i64(text),
            _ => None,
        },
    };
    if let Some(n) = parsed {
        if min <= n && n <= max {
            return Ok(());
        }
    }
    let start = concat(key, " must be an integer from ");
    let with_min = concat(&start, &decimal_text(min as i128));
    let middle = concat(&with_min, " through ");
    Err(bad_request(&concat(&middle, &decimal_text(max as i128))))
}

/// Accepts a setting, or says why not.
pub fn validate_setting(key: &str, value: &Json) -> (r: Result<(), AppError>)
    ensures
        match r {
            Ok(_) => setting_refusal(key@, value@) is None,
            Err(e) => e@.0 == AppErrorKind::BadRequest && setting_refusal(key@, value@) == Some(
                e@.1,
            ),
        },
{
    proof {
        setting_names_differ();
    }
    if same(key, "routing_strategy") {
        let known = match value {
            Json::Str(text) => same(text, "round_robin") || same(text, "usage_weighted"),
            _ => false,
        };
        if known {
            Ok(())
        } else {
            Err(bad_request("routing_strategy must be round_robin or usage_weighted"))
        }
    } else if same(key, "proxy_max_attempts") {
        validate_integer_setting(key, value, 1, 10)
    } else if same(key, "rate_limit_cooldown_seconds") {
        validate_integer_setting(key, value, 1, 3600)
    } else if same(key, "sticky_session_ttl_seconds") {
        validate_integer_setting(key, value, 300, 2592000)
    } else if same(key, "usage_sample_retention_days") {
        validate_integer_setting(key, value, 1, 365)
    } else {
        let start = concat("unsupported runtime setting '", key);
        Err(bad_request(&concat(&start, "'")))
    }
}

pub open spec fn setting_views(rows: Seq<(String, Json)>) -> Seq<(Seq<char>, JsonView)> {
    Seq::new(rows.len(), |i: int| (rows[i].0@, rows[i].1@))
}

/// Accepts a set of settings as a whole, or says why the first refused one is refused.
pub fn validate_settings(rows: &Vec<(String, Json)>) -> (r: Result<(), AppError>)
    ensures
        match r {
            Ok(_) => forall|i: int|
                0 <= i < rows.len() ==> setting_refusal(
                    (#[trigger] setting_views(rows@)[i]).0,
                    setting_views(rows@)[i].1,
                ) is None,
            Err(e) => exists|i: int|
                #![trigger setting_views(rows@)[i]]
                0 <= i < rows.len() && setting_refusal(
                    setting_views(rows@)[i].0,
                    setting_views(rows@)[i].1,
                ) == Some(e@.1) && e@.0 == AppErrorKind::BadRequest && forall|j: int|
                    0 <= j < i ==> setting_refusal(
                        (#[trigger] setting_views(rows@)[j]).0,
                        setting_views(rows@)[j].1,
                    ) is None,
        },
{
    let ghost all = setting_views(rows@);
    let mut i: usize = 0;
    while i < rows.len()
        invariant
            i <= rows.len(),
            all == setting_views(rows@),
            forall|j: int|
                0 <= j < i ==> setting_refusal((#[trigger] all[j]).0, all[j].1) is None,
        decreases rows.len() - i,
    {
        assert(all[i as int] == (rows@[i as int].0@, rows@[i as int].1@));
        match validate_setting(&rows[i].0, &rows[i].1) {
            Ok(_) => {},
            Err(error) => return Err(error),
        }
        i += 1;
    }
    Ok(())
}

/// The settings that stored values give, starting from the defaults.
pub open spec fn settings_from(rows: Seq<(Seq<char>, JsonView)>) -> SettingsView
    decreases rows.len(),
{
    if rows.len() == 0 {
        default_settings()
    } else {
        settings_with(settings_from(rows.drop_last()), rows.last().0, rows.last().1)
    }
}

pub fn runtime_settings(rows: &Vec<(String, Json)>) -> (r: RuntimeSettings)
    ensures
        r@ == settings_from(setting_views(rows@)),
        crate::models::settings_in_bounds(r@),
{
    let ghost all = setting_views(rows@);
    let mut settings = <RuntimeSettings as Default>::default();
    let mut i: usize = 0;
    proof {
        assert(all.take(0) =~= Seq::empty());
        crate::models::settings_stay_in_bounds(settings@, Seq::empty(), JsonView::Null);
    }
    while i < rows.len()
        invariant
            i <= rows.len(),
            all == setting_views(rows@),
            settings@ == settings_from(all.take(i as int)),
            crate::models::settings_in_bounds(settings@),
        decreases rows.len() - i,
    {
        proof {
            assert(all.take(i as int + 1).drop_last() =~= all.take(i as int));
            crate::models::settings_stay_in_bounds(settings@, rows@[i as int].0@, rows@[i as int].1@);
        }
        settings.apply(&rows[i].0, &rows[i].1);
        i += 1;
    }
    assert(all.take(all.len() as int) =~= all);
    settings
}

/// A setting that is accepted takes effect as it was given: no limit changes it.
pub proof fn accepted_settings_take_effect(s: SettingsView, key: Seq<char>, v: JsonView)
    requires
        setting_refusal(key, v) is None,
    ensures
        key == "routing_strategy"@ ==> v == JsonView::Str(settings_with(s, key, v).strategy),
        key == "proxy_max_attempts"@ ==> Some(settings_with(s, key, v).attempts) == plain_int(v),
        key == "rate_limit_cooldown_seconds"@ ==> Some(settings_with(s, key, v).cooldown)
            == plain_int(v),
        key == "sticky_session_ttl_seconds"@ ==> Some(settings_with(s, key, v).sticky_ttl)
            == plain_int(v),
        key == "usage_sample_retention_days"@ ==> Some(settings_with(s, key, v).retention)
            == plain_int(v),
{
    setting_names_differ();
    reveal_strlit("round_robin");
    reveal_strlit("usage_weighted");
    assert(trimmed("round_robin"@) == "round_robin"@);
    assert(trimmed("usage_weighted"@) == "usage_weighted"@);
    if key != "routing_strategy"@ {
        match v {
            JsonView::Str(text) => {
                decimal_needs_no_trimming(text);
            },
            _ => {},
        }
    }
}

/// A decimal has no white space round it.
proof fn decimal_needs_no_trimming(text: Seq<char>)
    requires
        decimal_value(text) is Some,
    ensures
        trimmed(text) == text,
{
    let body = if text[0] == '-' || text[0] == '+' {
        text.drop_first()
    } else {
        text
    };
    assert(crate::text::is_digit(body[0]));
    assert(crate::text::is_digit(body[body.len() - 1]));
    assert(body.last() == text.last());
    assert(!is_white(text[0]) && !is_white(text.last()));
}

/// A setting is stored exactly where it is one of the five and its value is in its range: the strategy
/// by name, the others by number.
pub proof fn settings_are_checked(key: Seq<char>, v: JsonView, n: u64)
    requires
        n <= i64::MAX,
    ensures
        ({
            let number = JsonView::Number(JsonNumber::PosInt(n));
            &&& setting_refusal("proxy_max_attempts"@, number) is None <==> 1 <= n <= 10
            &&& setting_refusal("rate_limit_cooldown_seconds"@, number) is None <==> 1 <= n <= 3600
            &&& setting_refusal("sticky_session_ttl_seconds"@, number) is None <==> 300 <= n
                <= 2592000
            &&& setting_refusal("usage_sample_retention_days"@, number) is None <==> 1 <= n <= 365
            &&& setting_refusal("routing_strategy"@, number) is Some
        }),
        setting_refusal("routing_strategy"@, v) is None <==> v == JsonView::Str("round_robin"@) || v
            == JsonView::Str("usage_weighted"@),
        key != "routing_strategy"@ && key != "proxy_max_attempts"@ && key
            != "rate_limit_cooldown_seconds"@ && key != "sticky_session_ttl_seconds"@ && key
            != "usage_sample_retention_days"@ ==> setting_refusal(key, v) is Some,
        key != "routing_strategy"@ && (v is Null || v is Bool || v is Array || v is Object)
            ==> setting_refusal(key, v) is Some,
{
    setting_names_differ();
}

/// The settings are those of the rows, one after the other: the last row of a setting counts.
pub proof fn later_rows_count(rows: Seq<(Seq<char>, JsonView)>, key: Seq<char>, v: JsonView)
    ensures
        settings_from(rows.push((key, v))) == settings_with(settings_from(rows), key, v),
        settings_from(Seq::empty()) == default_settings(),
{
    assert(rows.push((key, v)).drop_last() =~= rows);
}

/// A number may be given as a text, and is then in the same bounds.
pub proof fn settings_may_be_texts(text: Seq<char>, n: int)
    requires
        decimal_value(text) == Some(n),
        i64::MIN <= n <= i64::MAX,
    ensures
        setting_refusal("proxy_max_attempts"@, JsonView::Str(text)) is None <==> 1 <= n <= 10,
        setting_refusal("rate_limit_cooldown_seconds"@, JsonView::Str(text)) is None <==> 1 <= n <= 3600,
        setting_refusal("sticky_session_ttl_seconds"@, JsonView::Str(text)) is None <==> 300 <= n
            <= 2592000,
        setting_refusal("usage_sample_retention_days"@, JsonView::Str(text)) is None <==> 1 <= n <= 365,
{
    setting_names_differ();
}

/// A refusal of a number names the setting and its bounds.
pub proof fn refusals_name_the_bounds(v: JsonView)
    requires
        plain_int(v) is None,
    ensures
        setting_refusal("proxy_max_attempts"@, v) == Some(
            "proxy_max_attempts"@ + " must be an integer from "@ + decimal(1) + " through "@ + decimal(10),
        ),
        setting_refusal("sticky_session_ttl_seconds"@, v) == Some(
            "sticky_session_ttl_seconds"@ + " must be an integer from "@ + decimal(300) + " through "@
                + decimal(2592000),
        ),
{
    setting_names_differ();
}

} // verus!
