use codex_lb_rs::admin::check_settings;
use codex_lb_rs::json::{parse_text, Json};
use codex_lb_rs::models::{LogsQuery, RuntimeSettings};
use codex_lb_rs::settings::{runtime_settings, validate_setting};

fn json(text: &str) -> Json {
    parse_text(text).expect("a JSON text")
}

#[test]
fn runtime_settings_apply_json_and_string_values() {
    let mut settings = RuntimeSettings::default();

    settings.apply("routing_strategy", &json(r#""round_robin""#));
    settings.apply("proxy_max_attempts", &json("3"));
    settings.apply("rate_limit_cooldown_seconds", &json(r#""120""#));

    assert_eq!(settings.routing_strategy, "round_robin");
    assert_eq!(settings.proxy_max_attempts, 3);
    assert_eq!(settings.rate_limit_cooldown_seconds, 120);
}

#[test]
fn runtime_settings_clamp_unsafe_values() {
    let mut settings = RuntimeSettings::default();

    settings.apply("proxy_max_attempts", &json("0"));
    settings.apply("rate_limit_cooldown_seconds", &json("99999"));

    assert_eq!(settings.proxy_max_attempts, 1);
    assert_eq!(settings.rate_limit_cooldown_seconds, 3_600);
}

#[test]
fn runtime_settings_ignore_invalid_values() {
    let mut settings = RuntimeSettings::default();

    settings.apply("proxy_max_attempts", &json(r#"{"bad": true}"#));
    settings.apply("rate_limit_cooldown_seconds", &json("false"));

    assert_eq!(settings, RuntimeSettings::default());
}

#[test]
fn settings_are_refused_with_the_range_that_they_can_have() {
    assert!(validate_setting("routing_strategy", &json(r#""usage_weighted""#)).is_ok());
    let error = validate_setting("routing_strategy", &json(r#""random""#)).unwrap_err();
    assert_eq!(
        error.message(),
        "routing_strategy must be round_robin or usage_weighted"
    );
    let error = validate_setting("proxy_max_attempts", &json("11")).unwrap_err();
    assert_eq!(
        error.message(),
        "proxy_max_attempts must be an integer from 1 through 10"
    );
    assert!(validate_setting("proxy_max_attempts", &json(r#""10""#)).is_ok());
    let error = validate_setting("sticky_session_ttl_seconds", &json("299")).unwrap_err();
    assert_eq!(
        error.message(),
        "sticky_session_ttl_seconds must be an integer from 300 through 2592000"
    );
    let error = validate_setting("color", &json("1")).unwrap_err();
    assert_eq!(error.message(), "unsupported runtime setting 'color'");
    assert_eq!(error.code(), "bad_request");
}

#[test]
fn accepted_settings_are_those_in_effect() {
    let rows = check_settings(json(
        r#"{"proxy_max_attempts": 4, "usage_sample_retention_days": "90"}"#,
    ))
    .unwrap();
    let settings = runtime_settings(&rows);
    assert_eq!(settings.proxy_max_attempts, 4);
    assert_eq!(settings.usage_sample_retention_days, 90);
    assert_eq!(settings.routing_strategy, "usage_weighted");
    let error = check_settings(json("[1]")).unwrap_err();
    assert_eq!(error.message(), "settings payload must be a JSON object");
    assert!(check_settings(json(r#"{"usage_sample_retention_days": 366}"#)).is_err());
}

#[test]
fn pages_of_logs_are_limited() {
    let page = |limit, offset| LogsQuery { limit, offset }.page();
    assert_eq!(page(None, None), (100, 0));
    assert_eq!(page(Some(0), Some(-5)), (1, 0));
    assert_eq!(page(Some(9_999), Some(7)), (500, 7));
}

#[test]
fn the_routing_strategy_is_trimmed_and_never_blank() {
    let mut settings = RuntimeSettings::default();
    settings.apply("routing_strategy", &json(r#""  round_robin\t""#));
    assert_eq!(settings.routing_strategy, "round_robin");
    settings.apply("routing_strategy", &json(r#""  \n ""#));
    assert_eq!(settings.routing_strategy, "round_robin");
}
