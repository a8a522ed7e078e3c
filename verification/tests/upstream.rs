use codex_lb_rs::config::{Config, ConfigVars};
use codex_lb_rs::error::AppError;
use codex_lb_rs::json::{parse_text, Json, JsonNumber};
use codex_lb_rs::refresh::{read_usage_answer, retries_usage, token_refresh_body, usage_request};
use codex_lb_rs::upstream::{
    build_upstream_models_request, build_upstream_responses_request, extract_usage_from_json,
    extract_usage_from_sse, is_auth_error, last_named_json_object, lines_of, model_from_body,
    needs_refresh, parse_primary_usage_window, plan_type_of, read_refresh_response,
    response_id_from_sse, should_refresh, Header, OAuthTokenPayload,
};

const DAY: i128 = 86_400_000_000_000;

fn json(text: &str) -> Json {
    parse_text(text).expect("a JSON text")
}

fn config() -> Config {
    Config::from_vars(&ConfigVars {
        codex_lb_upstream_base_url: Some("https://up.example/".to_string()),
        codex_lb_oauth_client_id: Some("client".to_string()),
        codex_lb_oauth_scope: Some("openid".to_string()),
        ..ConfigVars::default()
    })
    .unwrap()
}

fn header(name: &str, value: &str) -> Header {
    Header {
        name: name.to_string(),
        value: value.as_bytes().to_vec(),
    }
}

fn shown(headers: &[Header]) -> Vec<(String, String)> {
    headers
        .iter()
        .map(|h| (h.name.clone(), String::from_utf8(h.value.clone()).unwrap()))
        .collect()
}

fn pair(name: &str, value: &str) -> (String, String) {
    (name.to_string(), value.to_string())
}

#[test]
fn model_from_body_reads_model_field() {
    let model = model_from_body(br#"{"model":"gpt-5.1-codex-mini","input":"hi"}"#);

    assert_eq!(model.as_deref(), Some("gpt-5.1-codex-mini"));
}

#[test]
fn extract_usage_from_sse_reads_nested_response_usage() {
    let text = [
        "event: response.completed\n",
        "data: {\"response\":{\"usage\":{\"input_tokens\":12,\"output_tokens\":5,",
        "\"input_tokens_details\":{\"cached_tokens\":3},",
        "\"output_tokens_details\":{\"reasoning_tokens\":2}}}}\n\n",
        "data: [DONE]\n\n",
    ]
    .concat();
    let usage = extract_usage_from_sse(&text);

    assert_eq!(usage.input_tokens, Some(12));
    assert_eq!(usage.output_tokens, Some(5));
    assert_eq!(usage.cached_input_tokens, Some(3));
    assert_eq!(usage.reasoning_tokens, Some(2));
}

#[test]
fn extract_usage_from_truncated_terminal_event_uses_usage_tail() {
    let text = [
        "...truncated response output...\"usage\":{",
        "\"input_tokens\":101,\"output_tokens\":7,",
        "\"input_tokens_details\":{\"cached_tokens\":80},",
        "\"output_tokens_details\":{\"reasoning_tokens\":4}}}}\n\n",
        "data: [DONE]\n\n",
    ]
    .concat();
    let usage = extract_usage_from_sse(&text);

    assert_eq!(usage.input_tokens, Some(101));
    assert_eq!(usage.output_tokens, Some(7));
    assert_eq!(usage.cached_input_tokens, Some(80));
    assert_eq!(usage.reasoning_tokens, Some(4));
}

#[test]
fn parse_primary_usage_window_reads_used_percent_and_reset() {
    let (used_percent, reset_at) = parse_primary_usage_window(&json(
        r#"{
            "rate_limit": {
                "primary_window": {
                    "used_percent": 42.5,
                    "reset_at": 1700000000
                }
            }
        }"#,
    ));

    assert_eq!(used_percent, Some(JsonNumber::Float(42.5f64.to_bits())));
    assert_eq!(reset_at.unwrap(), 1_700_000_000);
}

#[test]
fn resets_beyond_the_calendar_are_dropped() {
    let reset = |seconds: i64| {
        let text = format!(
            r#"{{"rate_limit": {{"primary_window": {{"reset_at": {seconds}}}}}}}"#
        );
        parse_primary_usage_window(&json(&text)).1
    };
    assert_eq!(reset(8_210_266_876_799), Some(8_210_266_876_799));
    assert_eq!(reset(8_210_266_876_800), None);
    assert_eq!(reset(-8_334_601_228_800), Some(-8_334_601_228_800));
    assert_eq!(reset(-8_334_601_228_801), None);
}

#[test]
fn objects_are_found_by_name_from_the_end() {
    let text = r#"x "usage": {"a": 1} y "usage": {"a": "}{"} z"#;
    let found = last_named_json_object(text, "usage").unwrap();
    assert_eq!(found.get_str("a"), Some("}{"));
    assert!(last_named_json_object(text, "other").is_none());
    assert!(last_named_json_object(r#""usage": {"a": 1"#, "usage").is_none());
}

#[test]
fn usage_names_the_model_and_tier_that_served_it() {
    let usage = extract_usage_from_json(&json(
        r#"{"model": "gpt-5.6-sol", "service_tier": "default", "usage": {
            "input_tokens": 9, "input_tokens_details": {"cache_write_tokens": 4}}}"#,
    ));
    assert_eq!(usage.effective_model.as_deref(), Some("gpt-5.6-sol"));
    assert_eq!(usage.effective_service_tier.as_deref(), Some("default"));
    assert_eq!(usage.cache_write_input_tokens, Some(4));
}

#[test]
fn lines_end_with_line_feeds() {
    assert_eq!(lines_of("a\r\nb\n\nc"), vec!["a\r", "b", "", "c"]);
    let usage = extract_usage_from_sse("data: {\"usage\":{\"input_tokens\":6}}\r\n\r\n");
    assert_eq!(usage.input_tokens, Some(6));
}

#[test]
fn response_identifiers_come_from_the_last_event_that_has_one() {
    let text = "data: {\"response\":{\"id\":\"resp_1\"}}\n\ndata: {\"type\":\"x\"}\n\n";
    assert_eq!(response_id_from_sse(text).as_deref(), Some("resp_1"));
    assert_eq!(response_id_from_sse("data: [DONE]\n"), None);
}

#[test]
fn requests_carry_the_account_and_none_of_the_credentials_of_the_client() {
    let incoming = vec![
        header("authorization", "Bearer client"),
        header("user-agent", "codex"),
        header("cookie", "a=b"),
        header("x-stainless-os", "linux"),
    ];
    let request = build_upstream_responses_request(
        &config(),
        "token",
        &Some("acc".to_string()),
        "rid",
        &incoming,
        false,
    );
    assert_eq!(request.url, "https://up.example/codex/responses");
    assert_eq!(
        shown(&request.headers),
        vec![
            pair("authorization", "Bearer token"),
            pair("accept", "text/event-stream"),
            pair("content-type", "application/json"),
            pair("x-request-id", "rid"),
            pair("user-agent", "codex"),
            pair("x-stainless-os", "linux"),
            pair("chatgpt-account-id", "acc"),
        ]
    );
    let models =
        build_upstream_models_request(&config(), "token", &None, "rid", &vec![], Some("a=1"));
    assert_eq!(models.url, "https://up.example/codex/models?a=1");
    let usage = usage_request(&config(), "token", &None);
    assert_eq!(usage.url, "https://up.example/backend-api/wham/usage");
    assert_eq!(
        shown(&usage.headers),
        vec![pair("authorization", "Bearer token"), pair("accept", "application/json")]
    );
}

#[test]
fn authorization_failures_are_told_by_their_status() {
    assert!(is_auth_error(&AppError::Upstream("failed (401 Unauthorized)".to_string())));
    assert!(is_auth_error(&AppError::Upstream("failed (403)".to_string())));
    assert!(!is_auth_error(&AppError::Upstream("failed (500)".to_string())));
    assert!(!is_auth_error(&AppError::Internal("401".to_string())));
    let error = AppError::Upstream("401".to_string());
    assert!(retries_usage(&error, false));
    assert!(!retries_usage(&error, true));
}

fn payload(access: Option<&str>, refresh: Option<&str>, id: Option<&str>) -> OAuthTokenPayload {
    OAuthTokenPayload {
        access_token: access.map(str::to_string),
        refresh_token: refresh.map(str::to_string),
        id_token: id.map(str::to_string),
        error: None,
        error_description: None,
        message: None,
        code: None,
    }
}

#[test]
fn refreshed_tokens_are_all_needed() {
    let good = payload(Some("a"), Some("r"), Some("i"));
    let tokens = read_refresh_response(true, "200 OK", good).ok().unwrap();
    assert_eq!(tokens.access_token, "a");
    assert_eq!(tokens.refresh_token, "r");
    assert_eq!(tokens.id_token, "i");
    assert_eq!(tokens.account_id, None);
    for (access, refresh, id, missing) in [
        (None, Some("r"), Some("i"), "access_token"),
        (Some("a"), None, Some("i"), "refresh_token"),
        (Some("a"), Some("r"), None, "id_token"),
    ] {
        let error = read_refresh_response(true, "200 OK", payload(access, refresh, id)).err().unwrap();
        assert_eq!(error.message(), format!("refresh response missing {missing}"));
    }
    let failed = |change: &dyn Fn(&mut OAuthTokenPayload)| {
        let mut answer = payload(None, None, None);
        change(&mut answer);
        let error = read_refresh_response(false, "400 Bad Request", answer).err().unwrap();
        error.message().to_string()
    };
    assert_eq!(failed(&|_| {}), "token refresh failed (400 Bad Request)");
    assert_eq!(failed(&|p| p.error = Some(json(r#""invalid_grant""#))), "invalid_grant");
    assert_eq!(
        failed(&|p| p.error = Some(json(r#"{"message": "expired", "code": "x"}"#))),
        "expired"
    );
    assert_eq!(failed(&|p| p.error = Some(json("[1]"))), "token refresh failed (400 Bad Request)");
    assert_eq!(
        failed(&|p| {
            p.code = Some("c".to_string());
            p.error_description = Some("d".to_string());
        }),
        "d"
    );
    assert_eq!(
        failed(&|p| {
            p.message = Some("m".to_string());
            p.error_description = Some("d".to_string());
        }),
        "m"
    );
    let body = token_refresh_body(&config(), "rrr");
    assert_eq!(body.get_str("grant_type"), Some("refresh_token"));
    assert_eq!(body.get_str("client_id"), Some("client"));
    assert_eq!(body.get_str("refresh_token"), Some("rrr"));
    assert_eq!(body.get_str("scope"), Some("openid"));
}

#[test]
fn usage_reports_have_to_be_json() {
    assert!(read_usage_answer(true, "200 OK", "{}").is_ok());
    let error = read_usage_answer(true, "200 OK", "oops").unwrap_err();
    assert_eq!(error.message(), "usage response was not valid JSON");
    let error = read_usage_answer(false, "500 X", "{ \"b\": 1, \"a\": [null, 2.5] }").unwrap_err();
    assert_eq!(
        error.message(),
        "usage request failed (500 X): {\"a\":[null,2.5],\"b\":1}"
    );
    let error = read_usage_answer(false, "500 X", &"z".repeat(1_500)).unwrap_err();
    assert_eq!(
        error.message(),
        format!("usage request failed (500 X): \"{}\"", "z".repeat(1_000))
    );
    assert_eq!(plan_type_of(&json(r#"{"plan": "pro"}"#)).as_deref(), Some("pro"));
}

#[test]
fn tokens_are_refreshed_by_age_or_before_they_expire() {
    let now = 1_700_000_000_000_000_000;
    assert!(should_refresh(now - 8 * DAY, 8, now));
    assert!(!should_refresh(now - 8 * DAY + 1, 8, now));
    assert!(needs_refresh(Some(now + 900_000_000_000), now, 8, now));
    assert!(!needs_refresh(Some(now + 900_000_000_001), now, 8, now));
    assert!(!needs_refresh(None, now, 8, now));
}
