//! What a request would have cost at the standard API rates, in billionths of a US dollar.
use vstd::prelude::*;
use crate::models::{UsageData, UsageView};
use crate::text::same;

verus! {

/// Date on which the embedded OpenAI API prices were verified.
pub const PRICING_AS_OF: &'static str = "2026-07-22";

/// Official source for the embedded OpenAI API prices.
pub const PRICING_SOURCE: &'static str = "https://developers.openai.com/api/docs/pricing";

/// Scope of the estimate. This is not ChatGPT subscription or Codex credit billing.
pub const PRICING_BASIS: &'static str = "OpenAI Standard API-equivalent text-token pricing in USD; normalizes recognized requests to Standard service-tier rates and excludes regional processing uplifts, tools, and other separately billed features";

/// Stable identifier of the rate card, kept beside each stored estimate.
pub const PRICING_VERSION: &'static str = "openai-standard-2026-07-22";

/// Prompt caching is unavailable below this total input size.
pub const MIN_CACHEABLE_INPUT_TOKENS: i64 = 1024;

/// The long-context uplift applies only when total input is strictly greater than this.
pub const LONG_CONTEXT_INPUT_THRESHOLD: i64 = 272000;

#[derive(Debug, Clone, Copy, PartialEq, Eq, Structural)]
pub enum ApiCostStatus {
    /// Every required token category was present and the result is exact for this rate card.
    Complete,
    /// Cache-write usage was absent; the result bounds all possible cache-write allocations.
    MissingCacheWrite,
    /// The effective model is absent or is not covered by this rate card.
    UnknownModel,
    /// One or more required usage counters are absent.
    MissingUsage,
    /// Usage counters are inconsistent, negative, or too large for a stored estimate.
    InvalidUsage,
}

impl ApiCostStatus {
    pub open spec fn text(self) -> Seq<char> {
        match self {
            ApiCostStatus::Complete => "complete"@,
            ApiCostStatus::MissingCacheWrite => "missing_cache_write"@,
            ApiCostStatus::UnknownModel => "unknown_model"@,
            ApiCostStatus::MissingUsage => "missing_usage"@,
            ApiCostStatus::InvalidUsage => "invalid_usage"@,
        }
    }

    pub open spec fn priced(self) -> bool {
        self == ApiCostStatus::Complete || self == ApiCostStatus::MissingCacheWrite
    }

    pub fn as_str(self) -> (r: &'static str)
        ensures
            r@ == self.text(),
    {
        match self {
            ApiCostStatus::Complete => "complete",
            ApiCostStatus::MissingCacheWrite => "missing_cache_write",
            ApiCostStatus::UnknownModel => "unknown_model",
            ApiCostStatus::MissingUsage => "missing_usage",
            ApiCostStatus::InvalidUsage => "invalid_usage",
        }
    }

    pub fn is_priced(self) -> (r: bool)
        ensures
            r == self.priced(),
    {
        matches!(self, ApiCostStatus::Complete | ApiCostStatus::MissingCacheWrite)
    }
}

#[derive(Debug, Clone, Copy, PartialEq, Eq, Structural)]
pub struct ApiCostEstimate {
    pub status: ApiCostStatus,
    /// Inclusive lower estimate in billionths of one US dollar.
    pub lower_nano_usd: Option<i64>,
    /// Inclusive upper estimate in billionths of one US dollar.
    pub upper_nano_usd: Option<i64>,
}

impl ApiCostEstimate {
    pub open spec fn without_price(status: ApiCostStatus) -> ApiCostEstimate {
        ApiCostEstimate { status, lower_nano_usd: None, upper_nano_usd: None }
    }

    pub fn unpriced(status: ApiCostStatus) -> (r: Self)
        ensures
            r == ApiCostEstimate::without_price(status),
    {
        ApiCostEstimate { status, lower_nano_usd: None, upper_nano_usd: None }
    }

    pub fn priced(status: ApiCostStatus, lower_nano_usd: i64, upper_nano_usd: i64) -> (r: Self)
        ensures
            r == (ApiCostEstimate {
                status,
                lower_nano_usd: Some(lower_nano_usd),
                upper_nano_usd: Some(upper_nano_usd),
            }),
    {
        ApiCostEstimate {
            status,
            lower_nano_usd: Some(lower_nano_usd),
            upper_nano_usd: Some(upper_nano_usd),
        }
    }
}

/// Prices per token. At the published prices, USD per million tokens converts exactly to
/// billionths of a dollar per token.
#[derive(Debug, Clone, Copy)]
pub struct TokenRates {
    pub input: i64,
    pub cached_input: i64,
    pub cache_write_input: i64,
    pub output: i64,
}

/// The rates of a model, where the rate card covers it.
pub open spec fn rates_of(model: Seq<char>) -> Option<TokenRates> {
    if model == "gpt-5.6"@ || model == "gpt-5.6-sol"@ {
        Some(
            TokenRates { input: 5000, cached_input: 500, cache_write_input: 6250, output: 30000 },
        )
    } else if model == "gpt-5.6-terra"@ {
        Some(
            TokenRates { input: 2500, cached_input: 250, cache_write_input: 3125, output: 15000 },
        )
    } else if model == "gpt-5.6-luna"@ {
        Some(TokenRates { input: 1000, cached_input: 100, cache_write_input: 1250, output: 6000 })
    } else {
        None
    }
}

fn token_rates(model: &str) -> (r: Option<TokenRates>)
    ensures
        r == rates_of(model@),
{
    if same(model, "gpt-5.6") || same(model, "gpt-5.6-sol") {
        Some(
            TokenRates { input: 5000, cached_input: 500, cache_write_input: 6250, output: 30000 },
        )
    } else if same(model, "gpt-5.6-terra") {
        Some(
            TokenRates { input: 2500, cached_input: 250, cache_write_input: 3125, output: 15000 },
        )
    } else if same(model, "gpt-5.6-luna") {
        Some(TokenRates { input: 1000, cached_input: 100, cache_write_input: 1250, output: 6000 })
    } else {
        None
    }
}

/// The price of a request: each category at its rate; in a long context input counts twice, and
/// output one and a half times.
pub open spec fn cost(
    rates: TokenRates,
    uncached: int,
    cached: int,
    cache_write: int,
    output: int,
    long_context: bool,
) -> int {
    if long_context {
        uncached * rates.input * 2 + cached * rates.cached_input * 2 + cache_write
            * rates.cache_write_input * 2 + (output * rates.output * 3) / 2
    } else {
        uncached * rates.input + cached * rates.cached_input + cache_write
            * rates.cache_write_input + output * rates.output
    }
}

pub open spec fn rates_are_natural(rates: TokenRates) -> bool {
    0 <= rates.input <= 30000 && 0 <= rates.cached_input <= 30000 && 0 <= rates.cache_write_input
        <= 30000 && 0 <= rates.output <= 30000
}

fn checked_category_cost(
    tokens: i64,
    nano_usd_per_token: i64,
    multiplier_numerator: i64,
    multiplier_denominator: i64,
) -> (r: Option<i64>)
    requires
        tokens >= 0,
        0 <= nano_usd_per_token <= 30000,
        1 <= multiplier_numerator <= 3,
        1 <= multiplier_denominator <= 2,
    ensures
        ({
            let value = (tokens * nano_usd_per_token * multiplier_numerator)
                / multiplier_denominator as int;
            &&& value >= 0
            &&& r == if value <= i64::MAX {
                Some(value as i64)
            } else {
                None
            }
        }),
{
    proof {
        let t = tokens as int;
        let p = nano_usd_per_token as int;
        let n = multiplier_numerator as int;
        assert(0 <= t * p <= 9223372036854775807 * 30000) by (nonlinear_arith)
            requires
                0 <= t <= 9223372036854775807,
                0 <= p <= 30000,
        ;
        assert(0 <= t * p * n <= 9223372036854775807 * 30000 * 3) by (nonlinear_arith)
            requires
                0 <= t * p <= 9223372036854775807 * 30000,
                1 <= n <= 3,
        ;
    }
    let product: i128 = tokens as i128 * nano_usd_per_token as i128;
    let numerator: i128 = product * multiplier_numerator as i128;
    let value: i128 = numerator / multiplier_denominator as i128;
    if value <= 9223372036854775807 {
        Some(value as i64)
    } else {
        None
    }
}

fn calculate_cost(
    rates: TokenRates,
    uncached_input: i64,
    cached_input: i64,
    cache_write_input: i64,
    output: i64,
    long_context: bool,
) -> (r: Option<i64>)
    requires
        rates_are_natural(rates),
        uncached_input >= 0,
        cached_input >= 0,
        cache_write_input >= 0,
        output >= 0,
    ensures
        ({
            let total = cost(
                rates,
                uncached_input as int,
                cached_input as int,
                cache_write_input as int,
                output as int,
                long_context,
            );
            r == if total <= i64::MAX {
                Some(total as i64)
            } else {
                None
            }
        }),
{
    let input_multiplier: i64 = if long_context { 2 } else { 1 };
    let output_numerator: i64 = if long_context { 3 } else { 1 };
    let output_denominator: i64 = if long_context { 2 } else { 1 };
    let uncached = checked_category_cost(uncached_input, rates.input, input_multiplier, 1);
    let cached = checked_category_cost(cached_input, rates.cached_input, input_multiplier, 1);
    let written = checked_category_cost(
        cache_write_input,
        rates.cache_write_input,
        input_multiplier,
        1,
    );
    let out = checked_category_cost(output, rates.output, output_numerator, output_denominator);
    match (uncached, cached, written, out) {
        (Some(a), Some(b), Some(c), Some(d)) => match a.checked_add(b) {
            Some(ab) => match ab.checked_add(c) {
                Some(abc) => abc.checked_add(d),
                None => None,
            },
            None => None,
        },
        _ => None,
    }
}

/// A pair of bounds as an estimate, where both fit.
pub open spec fn bounded(status: ApiCostStatus, lower: int, upper: int) -> ApiCostEstimate {
    if lower <= i64::MAX && upper <= i64::MAX {
        ApiCostEstimate {
            status,
            lower_nano_usd: Some(lower as i64),
            upper_nano_usd: Some(upper as i64),
        }
    } else {
        ApiCostEstimate::without_price(ApiCostStatus::InvalidUsage)
    }
}

/// The estimate for counters that are all there.
pub open spec fn estimate_counters(
    rates: TokenRates,
    input: int,
    output: int,
    cached: int,
    cache_write: Option<i64>,
) -> ApiCostEstimate {
    let invalid = ApiCostEstimate::without_price(ApiCostStatus::InvalidUsage);
    let long = input > LONG_CONTEXT_INPUT_THRESHOLD;
    let written = if input < MIN_CACHEABLE_INPUT_TOKENS {
        Some(0i64)
    } else {
        cache_write
    };
    if input < 0 || output < 0 || cached < 0 || cached > input {
        invalid
    } else if input < MIN_CACHEABLE_INPUT_TOKENS && (cached != 0 || (cache_write is Some
        && cache_write->0 != 0)) {
        invalid
    } else {
        match written {
            Some(w) => if w < 0 || cached + w > input {
                invalid
            } else {
                let c = cost(rates, input - cached - w, cached, w as int, output, long);
                bounded(ApiCostStatus::Complete, c, c)
            },
            None => bounded(
                ApiCostStatus::MissingCacheWrite,
                cost(rates, input - cached, cached, 0, output, long),
                cost(rates, 0, cached, input - cached, output, long),
            ),
        }
    }
}

/// The estimate for a request served by `model`.
pub open spec fn estimated(model: Option<Seq<char>>, usage: UsageView) -> ApiCostEstimate {
    let rates = match model {
        Some(name) => rates_of(name),
        None => None,
    };
    if rates is None {
        ApiCostEstimate::without_price(ApiCostStatus::UnknownModel)
    } else {
        match (usage.input, usage.output, usage.cached) {
            (Some(input), Some(output), Some(cached)) => estimate_counters(
                rates->0,
                input as int,
                output as int,
                cached as int,
                usage.cache_write,
            ),
            _ => ApiCostEstimate::without_price(ApiCostStatus::MissingUsage),
        }
    }
}

/// Estimates one request at OpenAI's Standard API text-token rates.
///
/// `input_tokens` is the total input count. Cached-read and cache-write counters are disjoint
/// subsets of that total. `reasoning_tokens` is ignored because it is already included in
/// `output_tokens`; so is the service tier: this is a Standard-rate counterfactual, not a
/// reconstruction of the request's actual bill.
pub fn estimate_standard_api_cost(effective_model: Option<&str>, usage: &UsageData) -> (r:
    ApiCostEstimate)
    ensures
        r == estimated(crate::json::opt_text(effective_model), usage@),
{
    let rates = match effective_model {
        Some(model) => match token_rates(model) {
            Some(rates) => rates,
            None => return ApiCostEstimate::unpriced(ApiCostStatus::UnknownModel),
        },
        None => return ApiCostEstimate::unpriced(ApiCostStatus::UnknownModel),
    };
    let (input, output, cached_input): (i64, i64, i64) = match (
        usage.input_tokens,
        usage.output_tokens,
        usage.cached_input_tokens,
    ) {
        (Some(input), Some(output), Some(cached_input)) => (input, output, cached_input),
        _ => return ApiCostEstimate::unpriced(ApiCostStatus::MissingUsage),
    };
    if input < 0 || output < 0 || cached_input < 0 || cached_input > input {
        return ApiCostEstimate::unpriced(ApiCostStatus::InvalidUsage);
    }
    let cache_write_input_tokens: Option<i64> = if input < MIN_CACHEABLE_INPUT_TOKENS {
        let written = match usage.cache_write_input_tokens {
            Some(cache_write) => cache_write != 0,
            None => false,
        };
        if cached_input != 0 || written {
            return ApiCostEstimate::unpriced(ApiCostStatus::InvalidUsage);
        }
        Some(0)
    } else {
        usage.cache_write_input_tokens
    };
    let long_context = input > LONG_CONTEXT_INPUT_THRESHOLD;
    match cache_write_input_tokens {
        Some(cache_write_input) => {
            if cache_write_input < 0 || cache_write_input > input - cached_input {
                return ApiCostEstimate::unpriced(ApiCostStatus::InvalidUsage);
            }
            let uncached_input: i64 = input - cached_input - cache_write_input;
            match calculate_cost(
                rates,
                uncached_input,
                cached_input,
                cache_write_input,
                output,
                long_context,
            ) {
                Some(c) => ApiCostEstimate::priced(ApiCostStatus::Complete, c, c),
                None => ApiCostEstimate::unpriced(ApiCostStatus::InvalidUsage),
            }
        },
        None => {
            let potentially_written: i64 = input - cached_input;
            let lower = calculate_cost(
                rates,
                potentially_written,
                cached_input,
                0,
                output,
                long_context,
            );
            let upper = calculate_cost(
                rates,
                0,
                cached_input,
                potentially_written,
                output,
                long_context,
            );
            match (lower, upper) {
                (Some(low), Some(high)) => ApiCostEstimate::priced(
                    ApiCostStatus::MissingCacheWrite,
                    low,
                    high,
                ),
                _ => ApiCostEstimate::unpriced(ApiCostStatus::InvalidUsage),
            }
        },
    }
}

/// The usage with a known number of cache-write tokens.
pub open spec fn with_cache_write(usage: UsageView, written: i64) -> UsageView {
    UsageView { cache_write: Some(written), ..usage }
}

/// Where the cache-write count is absent, the bounds hold of every count it could have been, and
/// both are reached: with nothing written, and with all uncached input written.
pub proof fn missing_cache_write_is_bounded(model: Option<Seq<char>>, usage: UsageView, written: i64)
    requires
        estimated(model, usage).status == ApiCostStatus::MissingCacheWrite,
        0 <= written,
        usage.cached->0 + written <= usage.input->0,
    ensures
        ({
            let bounds = estimated(model, usage);
            let exact = estimated(model, with_cache_write(usage, written));
            &&& exact.status == ApiCostStatus::Complete
            &&& bounds.lower_nano_usd->0 <= exact.lower_nano_usd->0
            &&& exact.lower_nano_usd == exact.upper_nano_usd
            &&& exact.upper_nano_usd->0 <= bounds.upper_nano_usd->0
            &&& written == 0 ==> exact.lower_nano_usd == bounds.lower_nano_usd
            &&& usage.cached->0 + written == usage.input->0 ==> exact.upper_nano_usd
                == bounds.upper_nano_usd
        }),
{
    let rates = rates_of(model->0)->0;
    let (input, output, cached) = (
        usage.input->0 as int,
        usage.output->0 as int,
        usage.cached->0 as int,
    );
    let w = written as int;
    let free = input - cached;
    assert((free - w) * rates.input + w * rates.cache_write_input >= free * rates.input)
        by (nonlinear_arith)
        requires
            0 <= w <= free,
            0 <= rates.input <= rates.cache_write_input,
    ;
    assert((free - w) * rates.input + w * rates.cache_write_input <= free
        * rates.cache_write_input) by (nonlinear_arith)
        requires
            0 <= w <= free,
            0 <= rates.input <= rates.cache_write_input,
    ;
}

/// An estimate has both bounds, in order, exactly where its status is a priced one; a complete
/// estimate is exact.
pub proof fn priced_estimates_have_bounds(model: Option<Seq<char>>, usage: UsageView)
    ensures
        ({
            let e = estimated(model, usage);
            &&& e.status.priced() <==> e.lower_nano_usd is Some
            &&& e.status.priced() <==> e.upper_nano_usd is Some
            &&& e.status.priced() ==> 0 <= e.lower_nano_usd->0 <= e.upper_nano_usd->0
            &&& e.status == ApiCostStatus::Complete ==> e.lower_nano_usd == e.upper_nano_usd
        }),
{
    if estimated(model, usage).status.priced() {
        let rates = rates_of(model->0)->0;
        let (input, output, cached) = (
            usage.input->0 as int,
            usage.output->0 as int,
            usage.cached->0 as int,
        );
        let free = input - cached;
        assert(0 <= free * rates.input <= free * rates.cache_write_input) by (nonlinear_arith)
            requires
                0 <= free,
                0 <= rates.input <= rates.cache_write_input,
        ;
        assert(0 <= cached * rates.cached_input) by (nonlinear_arith)
            requires
                0 <= cached,
                0 <= rates.cached_input,
        ;
        assert(0 <= output * rates.output) by (nonlinear_arith)
            requires
                0 <= output,
                0 <= rates.output,
        ;
        if input >= MIN_CACHEABLE_INPUT_TOKENS && usage.cache_write is Some {
            let w = usage.cache_write->0 as int;
            assert(0 <= (free - w) * rates.input && 0 <= w * rates.cache_write_input)
                by (nonlinear_arith)
                requires
                    0 <= w <= free,
                    0 <= rates.input,
                    0 <= rates.cache_write_input,
            ;
        }
    }
}

/// Reasoning tokens, the model and the service tier that the usage reports do not change an
/// estimate: it depends on the four counters alone.
pub proof fn estimate_depends_on_counters_only(
    model: Option<Seq<char>>,
    a: UsageView,
    b: UsageView,
)
    requires
        a.input == b.input,
        a.output == b.output,
        a.cached == b.cached,
        a.cache_write == b.cache_write,
    ensures
        estimated(model, a) == estimated(model, b),
{
}

/// The model without a suffix is priced as `sol`.
pub proof fn unsuffixed_model_is_sol(usage: UsageView)
    ensures
        estimated(Some("gpt-5.6"@), usage) == estimated(Some("gpt-5.6-sol"@), usage),
{
}

/// The models that have a price, and how their rates relate: reading from the cache costs a tenth of
/// the input, writing to it a quarter more than the input, and the output six times the input; `terra`
/// is at half the rates of `sol`, and `luna` at a fifth.
pub proof fn rates_keep_their_proportions(model: Seq<char>)
    ensures
        rates_of(model) is Some <==> model == "gpt-5.6"@ || model == "gpt-5.6-sol"@ || model
            == "gpt-5.6-terra"@ || model == "gpt-5.6-luna"@,
        rates_of(model) matches Some(r) ==> {
            &&& r.cached_input * 10 == r.input
            &&& r.cache_write_input * 4 == r.input * 5
            &&& r.output == r.input * 6
        },
        rates_of("gpt-5.6"@) == rates_of("gpt-5.6-sol"@),
        rates_of("gpt-5.6-sol"@)->0.input == 5000,
        rates_of("gpt-5.6-terra"@)->0.input * 2 == rates_of("gpt-5.6-sol"@)->0.input,
        rates_of("gpt-5.6-luna"@)->0.input * 5 == rates_of("gpt-5.6-sol"@)->0.input,
{
    reveal_strlit("gpt-5.6");
    reveal_strlit("gpt-5.6-sol");
    reveal_strlit("gpt-5.6-terra");
    reveal_strlit("gpt-5.6-luna");
    assert("gpt-5.6"@.len() == 7);
    assert("gpt-5.6-sol"@.len() == 11);
    assert("gpt-5.6-terra"@.len() == 13);
    assert("gpt-5.6-luna"@.len() == 12);
}

/// What a request costs whose counters are all known: each kind of token at its own rate, the input
/// without what was read from the cache or written to it. Above 272000 tokens of input, the input costs
/// twice as much and the output half as much again.
pub proof fn tokens_cost_their_rates(
    model: Seq<char>,
    usage: UsageView,
    input: i64,
    output: i64,
    cached: i64,
    written: i64,
)
    requires
        rates_of(model) is Some,
        usage.input == Some(input),
        usage.output == Some(output),
        usage.cached == Some(cached),
        usage.cache_write == Some(written),
        1024 <= input,
        0 <= output,
        0 <= cached,
        0 <= written,
        cached + written <= input,
    ensures
        ({
            let r = rates_of(model)->0;
            let e = estimated(Some(model), usage);
            let plain = input - cached - written;
            let short = plain * r.input + cached * r.cached_input + written * r.cache_write_input
                + output * r.output;
            let long = plain * r.input * 2 + cached * r.cached_input * 2 + written
                * r.cache_write_input * 2 + (output * r.output * 3) / 2;
            &&& input <= 272000 && short <= i64::MAX ==> e.status is Complete
                && e.lower_nano_usd == Some(short as i64) && e.upper_nano_usd == Some(
                short as i64,
            )
            &&& input > 272000 && long <= i64::MAX ==> e.status is Complete && e.lower_nano_usd
                == Some(long as i64) && e.upper_nano_usd == Some(long as i64)
        }),
{
}

/// An input of fewer than 1024 tokens is never cached: it costs its plain rate where nothing is said to
/// have been cached, and counters that say otherwise are refused.
pub proof fn small_inputs_are_not_cached(
    model: Seq<char>,
    usage: UsageView,
    input: i64,
    output: i64,
    cached: i64,
)
    requires
        rates_of(model) is Some,
        usage.input == Some(input),
        usage.output == Some(output),
        usage.cached == Some(cached),
        0 <= input < 1024,
        0 <= output,
    ensures
        cached != 0 || (usage.cache_write is Some && usage.cache_write->0 != 0) ==> estimated(
            Some(model),
            usage,
        ).status is InvalidUsage,
        cached == 0 && (usage.cache_write is None || usage.cache_write == Some(0i64)) ==> {
            let r = rates_of(model)->0;
            let whole = input * r.input + output * r.output;
            whole <= i64::MAX ==> estimated(Some(model), usage).status is Complete && estimated(
                Some(model),
                usage,
            ).lower_nano_usd == Some(whole as i64)
        },
{
}

/// What is not priced, and why: a model without rates, a counter that is not known, or counters that
/// contradict each other.
pub proof fn unpriced_requests_say_why(model: Option<Seq<char>>, usage: UsageView)
    ensures
        model is None ==> estimated(model, usage).status is UnknownModel,
        model matches Some(name) && rates_of(name) is None ==> estimated(
            model,
            usage,
        ).status is UnknownModel,
        model matches Some(name) && rates_of(name) is Some && (usage.input is None
            || usage.output is None || usage.cached is None) ==> estimated(
            model,
            usage,
        ).status is MissingUsage,
        model matches Some(name) && rates_of(name) is Some && usage.input is Some
            && usage.output is Some && usage.cached is Some && (usage.input->0 < 0
            || usage.output->0 < 0 || usage.cached->0 < 0 || usage.cached->0 > usage.input->0)
            ==> estimated(
            model,
            usage,
        ).status is InvalidUsage,
        model matches Some(name) && rates_of(name) is Some && usage.input is Some
            && usage.output is Some && usage.cached is Some && usage.cache_write is Some && (
        usage.cache_write->0 < 0 || usage.cached->0 + usage.cache_write->0 > usage.input->0)
            ==> estimated(
            model,
            usage,
        ).status is InvalidUsage,
        !(estimated(model, usage).status is Complete) && !(estimated(
            model,
            usage,
        ).status is MissingCacheWrite) ==> estimated(model, usage).lower_nano_usd is None
            && estimated(model, usage).upper_nano_usd is None,
{
}

/// The names of the states of an estimate.
pub proof fn statuses_have_names()
    ensures
        ApiCostStatus::Complete.text() == "complete"@,
        ApiCostStatus::MissingCacheWrite.text() == "missing_cache_write"@,
        ApiCostStatus::UnknownModel.text() == "unknown_model"@,
        ApiCostStatus::MissingUsage.text() == "missing_usage"@,
        ApiCostStatus::InvalidUsage.text() == "invalid_usage"@,
        ApiCostStatus::Complete.priced(),
        ApiCostStatus::MissingCacheWrite.priced(),
        !ApiCostStatus::UnknownModel.priced(),
        !ApiCostStatus::MissingUsage.priced(),
        !ApiCostStatus::InvalidUsage.priced(),
{
}

} // verus!
