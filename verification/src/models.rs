//! Data that the daemon stores and serves.
use vstd::prelude::*;
use crate::json::{Json, JsonNumber, JsonView};
use crate::text::{
    clone_opt, decimal, decimal_value, decimals_read_back, parse_i64, same, trim, trimmed,
    trimmed_is_stable,
};

verus! {

/// Token counters of one request, and what served it.
#[derive(Debug, Default)]
pub struct UsageData {
    pub input_tokens: Option<i64>,
    pub output_tokens: Option<i64>,
    pub cached_input_tokens: Option<i64>,
    pub cache_write_input_tokens: Option<i64>,
    pub reasoning_tokens: Option<i64>,
    pub effective_model: Option<String>,
    pub effective_service_tier: Option<String>,
}

pub struct UsageView {
    pub input: Option<i64>,
    pub output: Option<i64>,
    pub cached: Option<i64>,
    pub cache_write: Option<i64>,
    pub reasoning: Option<i64>,
    pub model: Option<Seq<char>>,
    pub tier: Option<Seq<char>>,
}

impl View for UsageData {
    type V = UsageView;

    open spec fn view(&self) -> UsageView {
        UsageView {
            input: self.input_tokens,
            output: self.output_tokens,
            cached: self.cached_input_tokens,
            cache_write: self.cache_write_input_tokens,
            reasoning: self.reasoning_tokens,
            model: self.effective_model.deep_view(),
            tier: self.effective_service_tier.deep_view(),
        }
    }
}

/// No counter known.
pub open spec fn no_usage() -> UsageView {
    UsageView {
        input: None,
        output: None,
        cached: None,
        cache_write: None,
        reasoning: None,
        model: None,
        tier: None,
    }
}

impl UsageData {
    pub fn none() -> (r: UsageData)
        ensures
            r@ == no_usage(),
    {
        UsageData {
            input_tokens: None,
            output_tokens: None,
            cached_input_tokens: None,
            cache_write_input_tokens: None,
            reasoning_tokens: None,
            effective_model: None,
            effective_service_tier: None,
        }
    }

    pub fn copied(&self) -> (r: UsageData)
        ensures
            r@ == self@,
    {
        UsageData {
            input_tokens: self.input_tokens,
            output_tokens: self.output_tokens,
            cached_input_tokens: self.cached_input_tokens,
            cache_write_input_tokens: self.cache_write_input_tokens,
            reasoning_tokens: self.reasoning_tokens,
            effective_model: clone_opt(&self.effective_model),
            effective_service_tier: clone_opt(&self.effective_service_tier),
        }
    }
}

/// The tokens of an account, in clear.
#[derive(Debug)]
pub struct AccountTokens {
    pub access_token: String,
    pub refresh_token: String,
    pub id_token: String,
}

/// What an account is to be changed to; what is absent stays.
#[derive(Debug)]
pub struct AccountUpdateRequest {
    pub status: Option<String>,
    pub label: Option<String>,
    pub email: Option<String>,
    pub plan_type: Option<String>,
}

/// Totals over all accounts and requests.
#[derive(Debug)]
pub struct UsageSummary {
    pub account_count: i64,
    pub active_account_count: i64,
    pub request_count: i64,
    pub successful_request_count: i64,
    pub failed_request_count: i64,
    pub input_tokens: i64,
    pub output_tokens: i64,
}

/// A page of request logs.
#[derive(Debug)]
pub struct LogsQuery {
    pub limit: Option<i64>,
    pub offset: Option<i64>,
}

/// A list of session routes.
#[derive(Debug)]
pub struct SessionRoutesQuery {
    pub limit: Option<i64>,
}

/// Hashes of which the routes are asked for.
#[derive(Debug)]
pub struct ResolveSessionRoutesRequest {
    pub key_hashes: Vec<String>,
}

/// A number limited to a range.
pub open spec fn clamped(n: int, min: int, max: int) -> int {
    if n < min {
        min
    } else if n > max {
        max
    } else {
        n
    }
}

pub fn clamp(n: i64, min: i64, max: i64) -> (r: i64)
    requires
        min <= max,
    ensures
        r == clamped(n as int, min as int, max as int),
{
    if n < min {
        min
    } else if n > max {
        max
    } else {
        n
    }
}

/// How many records a page has, and how many come before it.
pub open spec fn page_of(limit: Option<i64>, offset: Option<i64>) -> (int, int) {
    (
        clamped(
            match limit {
                Some(n) => n as int,
                None => 100,
            },
            1,
            500,
        ),
        match offset {
            Some(n) => if n < 0 {
                0
            } else {
                n as int
            },
            None => 0,
        },
    )
}

impl LogsQuery {
    /// The number of rows and how many to skip: 100 rows where none is asked for, 1 to 500 at all
    /// events, and never a negative number to skip.
    pub fn page(&self) -> (r: (i64, i64))
        ensures
            (r.0 as int, r.1 as int) == page_of(self.limit, self.offset),
            r.0 == clamped(
                match self.limit {
                    Some(n) => n as int,
                    None => 100,
                },
                1,
                500,
            ),
            r.1 == match self.offset {
                Some(n) => if n < 0 {
                    0
                } else {
                    n as int
                },
                None => 0,
            },
    {
        let limit: i64 = match self.limit {
            Some(n) => n,
            None => 100,
        };
        let offset: i64 = match self.offset {
            Some(n) => n,
            None => 0,
        };
        (clamp(limit, 1, 500), if offset < 0 { 0 } else { offset })
    }
}

/// What can be changed while the daemon runs.
#[derive(Debug, PartialEq, Eq)]
pub struct RuntimeSettings {
    pub routing_strategy: String,
    pub proxy_max_attempts: usize,
    pub rate_limit_cooldown_seconds: i64,
    pub sticky_session_ttl_seconds: i64,
    pub usage_sample_retention_days: i64,
}

pub struct SettingsView {
    pub strategy: Seq<char>,
    pub attempts: int,
    pub cooldown: int,
    pub sticky_ttl: int,
    pub retention: int,
}

impl View for RuntimeSettings {
    type V = SettingsView;

    open spec fn view(&self) -> SettingsView {
        SettingsView {
            strategy: self.routing_strategy@,
            attempts: self.proxy_max_attempts as int,
            cooldown: self.rate_limit_cooldown_seconds as int,
            sticky_ttl: self.sticky_session_ttl_seconds as int,
            retention: self.usage_sample_retention_days as int,
        }
    }
}

pub open spec fn default_settings() -> SettingsView {
    SettingsView {
        strategy: "usage_weighted"@,
        attempts: 2,
        cooldown: 60,
        sticky_ttl: 604800,
        retention: 30,
    }
}

/// Settings that the daemon can run with.
pub open spec fn settings_in_bounds(s: SettingsView) -> bool {
    &&& s.strategy.len() > 0
    &&& trimmed(s.strategy) == s.strategy
    &&& 1 <= s.attempts <= 10
    &&& 1 <= s.cooldown <= 3600
    &&& 300 <= s.sticky_ttl <= 2592000
    &&& 1 <= s.retention <= 365
}

/// The integer of a setting: a number, or a number in a text with white space round it.
pub open spec fn setting_int(v: JsonView) -> Option<int> {
    match v {
        JsonView::Number(_) => match v.integer() {
            Some(n) => Some(n as int),
            None => None,
        },
        JsonView::Str(text) => match decimal_value(trimmed(text)) {
            Some(n) => if i64::MIN <= n <= i64::MAX {
                Some(n)
            } else {
                None
            },
            None => None,
        },
        _ => None,
    }
}

/// The settings after one stored value is applied: limited to its range, and left as they are where
/// the key is unknown or the value does not fit.
pub open spec fn settings_with(s: SettingsView, key: Seq<char>, v: JsonView) -> SettingsView {
    if key == "routing_strategy"@ {
        match v {
            JsonView::Str(text) => if trimmed(text).len() > 0 {
                SettingsView { strategy: trimmed(text), ..s }
            } else {
                s
            },
            _ => s,
        }
    } else {
        match setting_int(v) {
            None => s,
            Some(n) => if key == "proxy_max_attempts"@ {
                SettingsView { attempts: clamped(n, 1, 10), ..s }
            } else if key == "rate_limit_cooldown_seconds"@ {
                SettingsView { cooldown: clamped(n, 1, 3600), ..s }
            } else if key == "sticky_session_ttl_seconds"@ {
                SettingsView { sticky_ttl: clamped(n, 300, 2592000), ..s }
            } else if key == "usage_sample_retention_days"@ {
                SettingsView { retention: clamped(n, 1, 365), ..s }
            } else {
                s
            },
        }
    }
}

/// The names of the settings all differ.
pub proof fn setting_names_differ()
    ensures
        "routing_strategy"@ != "proxy_max_attempts"@,
        "routing_strategy"@ != "rate_limit_cooldown_seconds"@,
        "routing_strategy"@ != "sticky_session_ttl_seconds"@,
        "routing_strategy"@ != "usage_sample_retention_days"@,
        "proxy_max_attempts"@ != "rate_limit_cooldown_seconds"@,
        "proxy_max_attempts"@ != "sticky_session_ttl_seconds"@,
        "proxy_max_attempts"@ != "usage_sample_retention_days"@,
        "rate_limit_cooldown_seconds"@ != "sticky_session_ttl_seconds"@,
        "rate_limit_cooldown_seconds"@ != "usage_sample_retention_days"@,
        "sticky_session_ttl_seconds"@ != "usage_sample_retention_days"@,
{
    reveal_strlit("routing_strategy");
    reveal_strlit("proxy_max_attempts");
    reveal_strlit("rate_limit_cooldown_seconds");
    reveal_strlit("sticky_session_ttl_seconds");
    reveal_strlit("usage_sample_retention_days");
    assert("routing_strategy"@[1] == 'o' && "proxy_max_attempts"@[0] == 'p'
        && "rate_limit_cooldown_seconds"@[1] == 'a' && "sticky_session_ttl_seconds"@[0] == 's'
        && "usage_sample_retention_days"@[0] == 'u' && "rate_limit_cooldown_seconds"@[0] == 'r'
        && "routing_strategy"@[0] == 'r');
}

fn json_i64(value: &Json) -> (r: Option<i64>)
    ensures
        match r {
            Some(n) => setting_int(value@) == Some(n as int),
            None => setting_int(value@) is None,
        },
{
    match value {
        Json::Number(_) => value.as_i64(),
        Json::Str(text) => parse_i64(&trim(text)),
        _ => None,
    }
}

impl Default for RuntimeSettings {
    fn default() -> (r: RuntimeSettings)
        ensures
            r@ == default_settings(),
    {
        RuntimeSettings {
            routing_strategy: "usage_weighted".to_owned(),
            proxy_max_attempts: 2,
            rate_limit_cooldown_seconds: 60,
            sticky_session_ttl_seconds: 604800,
            usage_sample_retention_days: 30,
        }
    }
}

impl RuntimeSettings {
    /// Applies one stored value.
    pub fn apply(&mut self, key: &str, value: &Json)
        ensures
            final(self)@ == settings_with(old(self)@, key@, value@),
    {
        proof {
            setting_names_differ();
        }
        if same(key, "routing_strategy") {
            if let Json::Str(text) = value {
                let strategy = trim(text);
                if !strategy.as_str().is_empty() {
                    self.routing_strategy = strategy;
                }
            }
        } else if let Some(n) = json_i64(value) {
            if same(key, "proxy_max_attempts") {
                self.proxy_max_attempts = clamp(n, 1, 10) as usize;
            } else if same(key, "rate_limit_cooldown_seconds") {
                self.rate_limit_cooldown_seconds = clamp(n, 1, 3600);
            } else if same(key, "sticky_session_ttl_seconds") {
                self.sticky_session_ttl_seconds = clamp(n, 300, 2592000);
            } else if same(key, "usage_sample_retention_days") {
                self.usage_sample_retention_days = clamp(n, 1, 365);
            }
        }
    }
}

/// Settings stay within their bounds whatever values are applied, and start within them: numbers in
/// their ranges, the strategy trimmed and not blank.
pub proof fn settings_stay_in_bounds(s: SettingsView, key: Seq<char>, v: JsonView)
    ensures
        settings_in_bounds(default_settings()),
        settings_in_bounds(s) ==> settings_in_bounds(settings_with(s, key, v)),
{
    reveal_strlit("usage_weighted");
    setting_names_differ();
    assert(trimmed("usage_weighted"@) == "usage_weighted"@);
    if let JsonView::Str(text) = v {
        trimmed_is_stable(text);
    }
}

/// Applying a value a second time changes nothing.
pub proof fn applying_twice_is_applying_once(s: SettingsView, key: Seq<char>, v: JsonView)
    ensures
        settings_with(settings_with(s, key, v), key, v) == settings_with(s, key, v),
{
}

/// An account as it is listed: times in nanoseconds since 1970, the percentage as the bits of a
/// double.
#[derive(Debug)]
pub struct AccountSummary {
    pub id: u128,
    pub chatgpt_account_id: Option<String>,
    pub label: String,
    pub email: String,
    pub plan_type: String,
    pub status: String,
    pub status_reason: Option<String>,
    pub last_refresh_at: i128,
    pub access_token_expires_at: Option<i128>,
    pub last_usage_refresh_at: Option<i128>,
    pub last_usage_error: Option<String>,
    pub created_at: i128,
    pub latest_used_percent: Option<u64>,
    pub latest_reset_at: Option<i128>,
    pub request_count: i64,
    pub input_tokens: i64,
    pub output_tokens: i64,
    pub cached_input_tokens: i64,
    pub observed_cache_write_input_tokens: i64,
    pub api_cost_lower_nano_usd: i64,
    pub api_cost_upper_nano_usd: i64,
    pub api_cost_complete_request_count: i64,
    pub api_cost_partial_request_count: i64,
    pub api_cost_unpriced_request_count: i64,
    pub last_selected_at: Option<i128>,
    pub last_request_at: Option<i128>,
    pub cooldown_until: Option<i128>,
    pub cooldown_reason: Option<String>,
    pub inflight_count: i64,
}

/// The counters of a request, its model and its tier are seen under their own names.
pub proof fn usage_is_seen_by_name(usage: UsageData)
    ensures
        usage@.input == usage.input_tokens,
        usage@.output == usage.output_tokens,
        usage@.cached == usage.cached_input_tokens,
        usage@.cache_write == usage.cache_write_input_tokens,
        usage@.reasoning == usage.reasoning_tokens,
        usage.effective_model matches Some(name) ==> usage@.model == Some(name@),
        usage.effective_model is None ==> usage@.model is None,
        usage.effective_service_tier matches Some(name) ==> usage@.tier == Some(name@),
        usage.effective_service_tier is None ==> usage@.tier is None,
{
}

/// A setting changes its own value and no other: a number is kept within the bounds of its setting, a
/// text is trimmed, and what is neither changes nothing.
pub proof fn settings_change_their_own_value(s: SettingsView, key: Seq<char>, v: JsonView, n: u64)
    requires
        n <= i64::MAX,
    ensures
        ({
            let number = JsonView::Number(JsonNumber::PosInt(n));
            &&& settings_with(s, "proxy_max_attempts"@, number) == (SettingsView {
                attempts: if n < 1 {
                    1
                } else if n > 10 {
                    10
                } else {
                    n as int
                },
                ..s
            })
            &&& settings_with(s, "rate_limit_cooldown_seconds"@, number) == (SettingsView {
                cooldown: if n < 1 {
                    1
                } else if n > 3600 {
                    3600
                } else {
                    n as int
                },
                ..s
            })
            &&& settings_with(s, "sticky_session_ttl_seconds"@, number) == (SettingsView {
                sticky_ttl: if n < 300 {
                    300
                } else if n > 2592000 {
                    2592000
                } else {
                    n as int
                },
                ..s
            })
            &&& settings_with(s, "usage_sample_retention_days"@, number) == (SettingsView {
                retention: if n < 1 {
                    1
                } else if n > 365 {
                    365
                } else {
                    n as int
                },
                ..s
            })
            &&& settings_with(s, "routing_strategy"@, number) == s
        }),
        ({
            let t = settings_with(s, key, v);
            &&& key != "routing_strategy"@ ==> t.strategy == s.strategy
            &&& key != "proxy_max_attempts"@ ==> t.attempts == s.attempts
            &&& key != "rate_limit_cooldown_seconds"@ ==> t.cooldown == s.cooldown
            &&& key != "sticky_session_ttl_seconds"@ ==> t.sticky_ttl == s.sticky_ttl
            &&& key != "usage_sample_retention_days"@ ==> t.retention == s.retention
            &&& v is Null || v is Bool || v is Array || v is Object ==> t == s
        }),
{
    setting_names_differ();
}

/// The routing strategy is the text that is set, trimmed, where it is more than white space.
pub proof fn strategies_are_texts(s: SettingsView, text: Seq<char>)
    ensures
        trimmed(text).len() > 0 ==> settings_with(
            s,
            "routing_strategy"@,
            JsonView::Str(text),
        ).strategy == trimmed(text),
        trimmed(text).len() == 0 ==> settings_with(s, "routing_strategy"@, JsonView::Str(text))
            == s,
        default_settings().strategy == "usage_weighted"@,
        default_settings().attempts == 2,
        default_settings().cooldown == 60,
        default_settings().sticky_ttl == 604800,
        default_settings().retention == 30,
{
}

/// A number is the same as its text in a setting.
pub proof fn numbers_may_be_texts(n: i64)
    requires
        n >= 0,
    ensures
        setting_int(JsonView::Number(JsonNumber::PosInt(n as u64))) == Some(n as int),
        trimmed(decimal(n as int)) == decimal(n as int) ==> setting_int(
            JsonView::Str(decimal(n as int)),
        ) == Some(n as int),
{
    decimals_read_back(n as int);
}

/// A page has a hundred records unless it asks for another number, one at least and 500 at most, and
/// starts where it says, never before the first.
pub proof fn pages_are_bounded(limit: i64, offset: i64)
    ensures
        page_of(None, None) == (100int, 0int),
        1 <= page_of(Some(limit), Some(offset)).0 <= 500,
        1 <= limit <= 500 ==> page_of(Some(limit), Some(offset)).0 == limit,
        limit > 500 ==> page_of(Some(limit), Some(offset)).0 == 500,
        limit < 1 ==> page_of(Some(limit), Some(offset)).0 == 1,
        offset >= 0 ==> page_of(Some(limit), Some(offset)).1 == offset,
        offset < 0 ==> page_of(Some(limit), Some(offset)).1 == 0,
{
}

/// A number is kept within bounds: itself between them, and the bound that it passes otherwise.
pub proof fn numbers_stay_within_bounds(n: int, min: int, max: int)
    requires
        min <= max,
    ensures
        min <= clamped(n, min, max) <= max,
        min <= n <= max ==> clamped(n, min, max) == n,
        n < min ==> clamped(n, min, max) == min,
        n > max ==> clamped(n, min, max) == max,
{
}

/// Settings are seen under their own names.
pub proof fn settings_are_seen_by_name(s: RuntimeSettings)
    ensures
        s@.strategy == s.routing_strategy@,
        s@.attempts == s.proxy_max_attempts,
        s@.cooldown == s.rate_limit_cooldown_seconds,
        s@.sticky_ttl == s.sticky_session_ttl_seconds,
        s@.retention == s.usage_sample_retention_days,
{
}

} // verus!
