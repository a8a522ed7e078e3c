use codex_lb_rs::models::UsageData;
use codex_lb_rs::pricing::{estimate_standard_api_cost, ApiCostEstimate, ApiCostStatus};

fn usage(
    input: Option<i64>,
    cached: Option<i64>,
    cache_write: Option<i64>,
    output: Option<i64>,
) -> UsageData {
    UsageData {
        input_tokens: input,
        output_tokens: output,
        cached_input_tokens: cached,
        cache_write_input_tokens: cache_write,
        reasoning_tokens: None,
        ..UsageData::default()
    }
}

#[test]
fn standard_rate_cards_are_exact_in_nano_usd() {
    let usage = usage(Some(3_000), Some(1_000), Some(1_000), Some(1_000));

    assert_eq!(
        estimate_standard_api_cost(Some("gpt-5.6-sol"), &usage),
        ApiCostEstimate::priced(ApiCostStatus::Complete, 41_750_000, 41_750_000)
    );
    assert_eq!(
        estimate_standard_api_cost(Some("gpt-5.6-terra"), &usage),
        ApiCostEstimate::priced(ApiCostStatus::Complete, 20_875_000, 20_875_000)
    );
    assert_eq!(
        estimate_standard_api_cost(Some("gpt-5.6-luna"), &usage),
        ApiCostEstimate::priced(ApiCostStatus::Complete, 8_350_000, 8_350_000)
    );
}

#[test]
fn unsuffixed_gpt_5_6_is_the_sol_alias() {
    let usage = usage(Some(2_000), Some(200), Some(300), Some(100));
    assert_eq!(
        estimate_standard_api_cost(Some("gpt-5.6"), &usage),
        estimate_standard_api_cost(Some("gpt-5.6-sol"), &usage)
    );
}

#[test]
fn long_context_uplift_is_strictly_greater_than_272k() {
    let at_threshold = usage(Some(272_000), Some(0), Some(0), Some(1_000));
    let above_threshold = usage(Some(272_001), Some(0), Some(0), Some(1_000));

    assert_eq!(
        estimate_standard_api_cost(Some("gpt-5.6-sol"), &at_threshold),
        ApiCostEstimate::priced(ApiCostStatus::Complete, 1_390_000_000, 1_390_000_000)
    );
    assert_eq!(
        estimate_standard_api_cost(Some("gpt-5.6-sol"), &above_threshold),
        ApiCostEstimate::priced(ApiCostStatus::Complete, 2_765_010_000, 2_765_010_000)
    );
}

#[test]
fn long_context_uplift_covers_every_input_category_and_output() {
    let usage = usage(Some(300_000), Some(100_000), Some(100_000), Some(10_000));
    assert_eq!(
        estimate_standard_api_cost(Some("gpt-5.6-sol"), &usage),
        ApiCostEstimate::priced(ApiCostStatus::Complete, 2_800_000_000, 2_800_000_000)
    );
}

#[test]
fn absent_cache_write_count_produces_tight_bounds() {
    let usage = usage(Some(2_000), Some(200), None, Some(100));
    assert_eq!(
        estimate_standard_api_cost(Some("gpt-5.6-sol"), &usage),
        ApiCostEstimate::priced(ApiCostStatus::MissingCacheWrite, 12_100_000, 14_350_000)
    );
}

#[test]
fn sub_minimum_requests_have_no_cache_write_uncertainty() {
    let usage = usage(Some(1_023), Some(0), None, Some(100));
    assert_eq!(
        estimate_standard_api_cost(Some("gpt-5.6-sol"), &usage),
        ApiCostEstimate::priced(ApiCostStatus::Complete, 8_115_000, 8_115_000)
    );
}

#[test]
fn sub_minimum_cache_activity_is_invalid() {
    for usage in [
        usage(Some(1_023), Some(1), None, Some(100)),
        usage(Some(1_023), Some(0), Some(1), Some(100)),
    ] {
        assert_eq!(
            estimate_standard_api_cost(Some("gpt-5.6-sol"), &usage),
            ApiCostEstimate::unpriced(ApiCostStatus::InvalidUsage)
        );
    }
}

#[test]
fn missing_cache_write_range_also_uses_long_context_rates() {
    let usage = usage(Some(273_000), Some(73_000), None, Some(1_000));
    assert_eq!(
        estimate_standard_api_cost(Some("gpt-5.6-luna"), &usage),
        ApiCostEstimate::priced(ApiCostStatus::MissingCacheWrite, 423_600_000, 523_600_000)
    );
}

#[test]
fn an_absent_but_impossible_cache_write_still_discloses_partial_telemetry() {
    let usage = usage(Some(1_024), Some(1_024), None, Some(10));
    let estimate = estimate_standard_api_cost(Some("gpt-5.6-terra"), &usage);
    assert_eq!(estimate.status, ApiCostStatus::MissingCacheWrite);
    assert_eq!(estimate.lower_nano_usd, estimate.upper_nano_usd);
}

#[test]
fn unknown_or_missing_models_are_unpriced() {
    let usage = usage(Some(10), Some(0), Some(0), Some(10));
    for model in [
        None,
        Some(""),
        Some("gpt-5.5"),
        Some("GPT-5.6-SOL"),
        Some(" gpt-5.6-sol "),
        Some("gpt-5.6-sol-2026-07-01"),
    ] {
        assert_eq!(
            estimate_standard_api_cost(model, &usage),
            ApiCostEstimate::unpriced(ApiCostStatus::UnknownModel)
        );
    }
}

#[test]
fn required_missing_usage_is_unpriced() {
    for usage in [
        usage(None, Some(0), Some(0), Some(0)),
        usage(Some(0), None, Some(0), Some(0)),
        usage(Some(0), Some(0), Some(0), None),
    ] {
        assert_eq!(
            estimate_standard_api_cost(Some("gpt-5.6-sol"), &usage),
            ApiCostEstimate::unpriced(ApiCostStatus::MissingUsage)
        );
    }
}

#[test]
fn negative_or_inconsistent_usage_is_invalid() {
    for usage in [
        usage(Some(-1), Some(0), Some(0), Some(0)),
        usage(Some(1), Some(-1), Some(0), Some(0)),
        usage(Some(1), Some(0), Some(-1), Some(0)),
        usage(Some(1), Some(0), Some(0), Some(-1)),
        usage(Some(10), Some(11), Some(0), Some(0)),
        usage(Some(10), Some(6), Some(5), Some(0)),
    ] {
        assert_eq!(
            estimate_standard_api_cost(Some("gpt-5.6-sol"), &usage),
            ApiCostEstimate::unpriced(ApiCostStatus::InvalidUsage)
        );
    }
}

#[test]
fn arithmetic_overflow_is_invalid_instead_of_wrapping() {
    let usage = usage(Some(i64::MAX), Some(0), Some(0), Some(0));
    assert_eq!(
        estimate_standard_api_cost(Some("gpt-5.6-sol"), &usage),
        ApiCostEstimate::unpriced(ApiCostStatus::InvalidUsage)
    );
}

#[test]
fn reasoning_tokens_are_not_charged_a_second_time_or_validated() {
    let mut first = usage(Some(2_000), Some(200), Some(300), Some(50));
    first.reasoning_tokens = Some(-123);
    let mut second = first.copied();
    second.reasoning_tokens = Some(i64::MAX);

    assert_eq!(
        estimate_standard_api_cost(Some("gpt-5.6-sol"), &first),
        estimate_standard_api_cost(Some("gpt-5.6-sol"), &second)
    );
}

#[test]
fn status_strings_and_priced_classification_are_stable() {
    assert_eq!(ApiCostStatus::Complete.as_str(), "complete");
    assert_eq!(
        ApiCostStatus::MissingCacheWrite.as_str(),
        "missing_cache_write"
    );
    assert_eq!(ApiCostStatus::UnknownModel.as_str(), "unknown_model");
    assert_eq!(ApiCostStatus::MissingUsage.as_str(), "missing_usage");
    assert_eq!(ApiCostStatus::InvalidUsage.as_str(), "invalid_usage");
    assert!(ApiCostStatus::Complete.is_priced());
    assert!(ApiCostStatus::MissingCacheWrite.is_priced());
    assert!(!ApiCostStatus::UnknownModel.is_priced());
}

#[test]
fn missing_cache_writes_lie_within_the_bounds() {
    let open = estimate_standard_api_cost(
        Some("gpt-5.6-luna"),
        &usage(Some(5_000), Some(1_000), None, Some(70)),
    );
    for written in [0, 1, 1_999, 4_000] {
        let known = estimate_standard_api_cost(
            Some("gpt-5.6-luna"),
            &usage(Some(5_000), Some(1_000), Some(written), Some(70)),
        );
        assert!(open.lower_nano_usd <= known.lower_nano_usd);
        assert!(known.upper_nano_usd <= open.upper_nano_usd);
    }
}
