use codex_lb_rs::double::{cut_to_i64, limit_percent, round_percent, whole_percent};
use codex_lb_rs::json::{parse_text, Json};
use codex_lb_rs::usage::{
    elapsed_window, normalize_key, pace_basis, parse_usage_windows, percent_texts, risk,
    same_reset_window, window_kind, EarlierReading, ParsedUsageWindow, Reading,
};

const SECOND: i128 = 1_000_000_000;
const NOW: i128 = 1_700_000_000 * SECOND;

fn json(text: &str) -> Json {
    parse_text(text).expect("a JSON text")
}

#[test]
fn parses_dynamic_core_and_additional_windows() {
    let windows = parse_usage_windows(
        &json(
            r#"{
                "rate_limit": {
                    "primary_window": {
                        "used_percent": 12,
                        "limit_window_seconds": 604800,
                        "reset_after_seconds": 3600
                    },
                    "secondary_window": null
                },
                "additional_rate_limits": [{
                    "limit_name": "GPT Spark",
                    "metered_feature": "codex-spark",
                    "rate_limit": {
                        "primary_window": {
                            "used_percent": 4.5,
                            "limit_window_seconds": 18000,
                            "reset_at": 1700007200
                        }
                    }
                }]
            }"#,
        ),
        NOW,
        &vec![],
    );

    assert_eq!(windows.len(), 2);
    assert_eq!(windows[0].quota_key, "codex");
    assert_eq!(windows[0].window_kind, "7d");
    assert_eq!(windows[1].quota_key, "codex_spark");
    assert_eq!(windows[1].window_kind, "5h");
    assert_eq!(windows[0].used_percent, 12.0f64.to_bits());
    assert_eq!(windows[0].reset_at, Some(NOW + 3_600 * SECOND));
    assert_eq!(windows[1].used_percent, 4.5f64.to_bits());
    assert_eq!(windows[1].reset_at, Some(1_700_007_200 * SECOND));
}

#[test]
fn percentages_in_text_are_asked_for_and_taken_back() {
    let raw = json(
        r#"{"rate_limit": {"primary_window": {"used_percent": "7.25", "limit_window_seconds": 60}}}"#,
    );
    let texts = percent_texts(&raw);
    assert_eq!(texts, vec!["7.25"]);
    let readings = vec![Reading {
        text: texts[0].clone(),
        bits: 7.25f64.to_bits(),
    }];
    let windows = parse_usage_windows(&raw, NOW, &readings);
    assert_eq!(windows[0].used_percent, 7.25f64.to_bits());
    assert!(parse_usage_windows(&raw, NOW, &vec![]).is_empty());
}

#[test]
fn pace_is_judged_by_use_and_ratio() {
    let ratio = |r: f64| Some(r.to_bits());
    assert_eq!(risk(50.0f64.to_bits(), ratio(2.0)), "danger");
    assert_eq!(risk(50.0f64.to_bits(), ratio(1.5)), "warning");
    assert_eq!(risk(50.0f64.to_bits(), ratio(1.0)), "safe");
    assert_eq!(risk(50.0f64.to_bits(), None), "unknown");
    assert_eq!(risk(75.0f64.to_bits(), None), "warning");
    assert_eq!(risk(90.0f64.to_bits(), None), "danger");
    assert_eq!(risk(100.0f64.to_bits(), None), "critical");
    assert_eq!(
        elapsed_window(Some(604_800), Some(NOW + 360_000 * SECOND), NOW),
        Some((244_800, 604_800))
    );
    assert_eq!(elapsed_window(Some(0), Some(NOW), NOW), None);
    assert!(same_reset_window(Some(NOW), Some(NOW + 300 * SECOND)));
    assert!(!same_reset_window(Some(NOW), Some(NOW + 301 * SECOND)));
    assert!(!same_reset_window(Some(NOW), None));
}

#[test]
fn windows_and_quotas_are_named() {
    assert_eq!(window_kind("primary", Some(18_000)), "5h");
    assert_eq!(window_kind("primary", Some(604_800)), "7d");
    assert_eq!(window_kind("primary", None), "primary");
    assert_eq!(normalize_key("Codex Spark-9"), "codex_spark_9");
}

#[test]
fn doubles_by_their_bits() {
    assert_eq!(limit_percent(250.0f64.to_bits()), 100.0f64.to_bits());
    assert_eq!(limit_percent((-1.0f64).to_bits()), 0.0f64.to_bits());
    for n in 0..101 {
        assert_eq!(whole_percent(n), (n as f64).to_bits());
    }
    for used in [0.0, 0.49, 0.5, 1.5, 2.5, 41.999, 99.5, 2147483646.5, 1e300, f64::INFINITY] {
        assert_eq!(round_percent(used.to_bits()), used.round() as i32, "{used}");
    }
    assert_eq!(cut_to_i64(1.9e3f64.to_bits()), Some(1_900));
    assert_eq!(cut_to_i64((-2.7f64).to_bits()), Some(-2));
    assert_eq!(cut_to_i64(1e300f64.to_bits()), None);
}

#[test]
fn pace_is_measured_against_an_earlier_reading_of_the_same_window() {
    let window = |used: f64| ParsedUsageWindow {
        quota_key: "codex".to_string(),
        quota_name: "Codex".to_string(),
        source_slot: "primary".to_string(),
        window_kind: "7d".to_string(),
        used_percent: used.to_bits(),
        window_seconds: Some(604_800),
        reset_at: Some(NOW + 360_000 * SECOND),
    };
    let earlier = |used: f64, seconds: i128| {
        Some(EarlierReading {
            used_percent: used.to_bits(),
            recorded_at: NOW - seconds * SECOND,
            reset_at: Some(NOW + 360_000 * SECOND),
        })
    };
    let basis = pace_basis(&window(50.0), NOW, earlier(40.0, 36_000), NOW);
    assert_eq!(basis.left_seconds, Some(360_000));
    assert_eq!(basis.measured_millis, Some(36_000_000));
    assert_eq!(basis.elapsed, Some((244_800, 604_800)));
    let measured = |used, previous| pace_basis(&window(used), NOW, previous, NOW).measured_millis;
    assert_eq!(measured(39.0, earlier(40.0, 36_000)), None);
    assert_eq!(measured(50.0, earlier(40.0, 899)), None);
    assert_eq!(measured(50.0, earlier(40.0, 900)), Some(900_000));
    assert_eq!(measured(50.0, None), None);
    assert_eq!(
        pace_basis(&window(50.0), NOW, None, NOW + 360_000 * SECOND).left_seconds,
        None
    );
}
