use base64::engine::general_purpose::URL_SAFE_NO_PAD;
use base64::Engine as _;
use codex_lb_rs::auth_file::{
    claims_from_auth, decode_jwt_payload, parse_auth_json, parse_opencode_auth_json,
    parse_timestamp, AuthFile, AuthFileError, AuthTokens,
};
use codex_lb_rs::json::{parse_text, Json};

const SECOND: i128 = 1_000_000_000;

fn json(text: &str) -> Json {
    parse_text(text).expect("a JSON text")
}

fn jwt(payload: &str) -> String {
    format!(
        "{}.{}.sig",
        URL_SAFE_NO_PAD.encode(r#"{"alg":"none"}"#),
        URL_SAFE_NO_PAD.encode(payload)
    )
}

#[test]
fn claims_from_auth_decodes_id_token_and_prefers_token_account_id() {
    let auth = AuthFile {
        openai_api_key: None,
        tokens: AuthTokens {
            id_token: jwt(
                r#"{
                    "email": "person@example.com",
                    "https://api.openai.com/auth": {
                        "chatgpt_account_id": "claim-account",
                        "chatgpt_plan_type": "plus"
                    }
                }"#,
            ),
            access_token: "access".to_string(),
            refresh_token: "refresh".to_string(),
            account_id: Some("token-account".to_string()),
        },
        last_refresh_at: None,
    };

    let claims = claims_from_auth(&auth);

    assert_eq!(claims.email, "person@example.com");
    assert_eq!(claims.plan_type, "plus");
    assert_eq!(claims.chatgpt_account_id.as_deref(), Some("token-account"));
    assert_eq!(claims.workspace_id.as_deref(), Some("token-account"));
}

#[test]
fn claims_fall_back_to_access_token_and_extract_workspace_and_expiry() {
    let auth = AuthFile {
        openai_api_key: None,
        tokens: AuthTokens {
            id_token: jwt(r#"{"email": "person@example.com", "exp": 1800000000}"#),
            access_token: jwt(
                r#"{
                    "exp": "1900000000",
                    "https://api.openai.com/auth": {
                        "chatgpt_account_id": "access-account",
                        "chatgpt_plan_type": "pro",
                        "organizations": [
                            {"id": "workspace-old", "title": "Old", "is_default": false},
                            {
                                "id": "workspace-current",
                                "title": "Work",
                                "role": "owner",
                                "is_default": true
                            }
                        ]
                    }
                }"#,
            ),
            refresh_token: "refresh".to_string(),
            account_id: None,
        },
        last_refresh_at: None,
    };

    let claims = claims_from_auth(&auth);

    assert_eq!(claims.email, "person@example.com");
    assert_eq!(claims.plan_type, "pro");
    assert_eq!(claims.chatgpt_account_id.as_deref(), Some("access-account"));
    assert_eq!(claims.workspace_id.as_deref(), Some("workspace-current"));
    assert_eq!(claims.workspace_name.as_deref(), Some("Work"));
    assert_eq!(claims.workspace_role.as_deref(), Some("owner"));
    assert_eq!(claims.workspace_is_default, Some(true));
    assert_eq!(
        claims.access_token_expires_at,
        Some(1_900_000_000 * SECOND)
    );
    assert_eq!(claims.id_token_expires_at, Some(1_800_000_000 * SECOND));
    assert_eq!(claims.token_expires_at(), claims.access_token_expires_at);
}

#[test]
fn parse_auth_json_accepts_current_codex_last_refresh_name() {
    let (auth, _) = parse_auth_json(&json(
        r#"{
            "tokens": {
                "id_token": "id",
                "access_token": "access",
                "refresh_token": "refresh"
            },
            "last_refresh": "2026-07-21T12:34:56Z"
        }"#,
    ))
    .ok()
    .expect("current Codex auth shape should parse");

    let wanted = chrono::DateTime::parse_from_rfc3339("2026-07-21T12:34:56Z").unwrap();
    assert_eq!(
        auth.last_refresh_at,
        Some(wanted.timestamp() as i128 * SECOND)
    );
    assert_eq!(auth.last_refresh_at, Some(1_784_637_296 * SECOND));
}

#[test]
fn parse_opencode_provider_preserves_metadata_and_uses_access_as_id_fallback() {
    let access_token = jwt(
        r#"{
            "email": "work@example.com",
            "exp": 1800000000,
            "https://api.openai.com/auth": {
                "chatgpt_account_id": "claim-account",
                "chatgpt_plan_type": "pro"
            }
        }"#,
    );
    let (auth, claims) = parse_opencode_auth_json(&json(&format!(
        r#"{{
            "type": "oauth",
            "access": "{access_token}",
            "refresh": "refresh-secret",
            "accountId": "stable-account",
            "expires": 1900000000000
        }}"#
    )))
    .ok()
    .expect("OpenCode provider should parse");

    assert_eq!(auth.tokens.id_token, auth.tokens.access_token);
    assert_eq!(claims.email, "work@example.com");
    assert_eq!(claims.plan_type, "pro");
    assert_eq!(claims.chatgpt_account_id.as_deref(), Some("stable-account"));
    assert_eq!(
        claims.access_token_expires_at,
        Some(1_900_000_000 * SECOND)
    );
}

#[test]
fn parse_opencode_root_selects_openai_provider() {
    let plus = jwt(r#"{"https://api.openai.com/auth": {"chatgpt_plan_type": "plus"}}"#);
    let pro = jwt(r#"{"https://api.openai.com/auth": {"chatgpt_plan_type": "pro"}}"#);
    let (auth, claims) = parse_opencode_auth_json(&json(&format!(
        r#"{{
            "anthropic": {{"type": "api", "key": "not-selected"}},
            "codex": {{
                "type": "oauth",
                "access": "{plus}",
                "refresh": "codex-refresh",
                "accountId": "codex-account",
                "expires": 1800000000000
            }},
            "openai": {{
                "type": "oauth",
                "access": "{pro}",
                "refresh": "openai-refresh",
                "accountId": "openai-account",
                "expires": 1900000000000
            }}
        }}"#
    )))
    .ok()
    .expect("OpenCode auth root should parse");

    assert_eq!(auth.tokens.account_id.as_deref(), Some("openai-account"));
    assert_eq!(claims.plan_type, "pro");
}

#[test]
fn parse_opencode_provider_rejects_blank_access_or_refresh_tokens() {
    for provider in [
        r#"{"type": "oauth", "access": " ", "refresh": "refresh"}"#,
        r#"{"type": "oauth", "access": "access", "refresh": "\t"}"#,
    ] {
        let error = parse_opencode_auth_json(&json(provider))
            .err()
            .expect("blank OpenCode credentials should be rejected");
        assert!(error
            .message()
            .contains("missing an access or refresh token"));
    }
}

#[test]
fn auth_debug_output_redacts_credentials() {
    let auth = AuthFile {
        openai_api_key: Some("api-key-secret".to_string()),
        tokens: AuthTokens {
            id_token: "id-token-secret".to_string(),
            access_token: "access-token-secret".to_string(),
            refresh_token: "refresh-token-secret".to_string(),
            account_id: Some("account-id".to_string()),
        },
        last_refresh_at: None,
    };

    let debug = auth.log_text();
    assert!(debug.contains("[REDACTED]"));
    for secret in [
        "api-key-secret",
        "id-token-secret",
        "access-token-secret",
        "refresh-token-secret",
    ] {
        assert!(!debug.contains(secret));
    }
}

#[test]
fn parse_auth_json_rejects_missing_tokens() {
    let error = parse_auth_json(&json(
        r#"{
            "tokens": {
                "idToken": "id",
                "accessToken": "",
                "refreshToken": "refresh"
            }
        }"#,
    ))
    .err()
    .expect("empty access token should be rejected");

    assert!(error.message().contains("missing one or more tokens"));
}

#[test]
fn other_payloads_are_refused_by_name() {
    assert_eq!(
        parse_auth_json(&json("[]")).err(),
        Some(AuthFileError::InvalidPayload)
    );
    assert_eq!(
        parse_auth_json(&json(r#"{"tokens": 1}"#)).err(),
        Some(AuthFileError::InvalidPayload)
    );
    assert_eq!(
        parse_opencode_auth_json(&json(r#"{"anthropic": {"type": "api", "key": "k"}}"#)).err(),
        Some(AuthFileError::NoProvider)
    );
    assert_eq!(
        parse_opencode_auth_json(&json(r#"{"type": "oauth", "access": 1, "refresh": "r"}"#)).err(),
        Some(AuthFileError::InvalidProvider)
    );
}

#[test]
fn tokens_that_are_no_jwt_hold_nothing() {
    assert!(decode_jwt_payload("one").is_none());
    assert!(decode_jwt_payload("a.%%%.c").is_none());
    let payload = decode_jwt_payload(&jwt(r#"{"a": 7}"#)).unwrap();
    assert_eq!(payload.get_i64("a"), Some(7));
}

#[test]
fn timestamps_are_read_in_seconds_milliseconds_and_text() {
    assert_eq!(parse_timestamp(&json("1700000000")), Some(1_700_000_000 * SECOND));
    assert_eq!(
        parse_timestamp(&json("1700000000123")),
        Some(1_700_000_000_123_000_000)
    );
    assert_eq!(
        parse_timestamp(&json(r#""2023-11-14T22:13:20.5Z""#)),
        Some(1_700_000_000_500_000_000)
    );
    assert_eq!(parse_timestamp(&json("true")), None);
    assert_eq!(parse_timestamp(&json(r#""soon""#)), None);
}

#[test]
fn tokens_may_be_padded() {
    let padded = format!(
        "h.{}.s",
        base64::engine::general_purpose::URL_SAFE.encode(r#"{"email":"padded1@example.com"}"#)
    );
    assert!(padded.contains('='));
    let payload = decode_jwt_payload(&padded).unwrap();
    assert_eq!(payload.get_str("email"), Some("padded1@example.com"));
}

#[test]
fn logs_show_credentials_in_the_form_of_records() {
    let mut auth = AuthFile {
        openai_api_key: Some("secret".to_string()),
        tokens: AuthTokens {
            id_token: "secret".to_string(),
            access_token: String::new(),
            refresh_token: "secret".to_string(),
            account_id: Some("a\"b\n".to_string()),
        },
        last_refresh_at: Some(1_700_000_000 * SECOND + 120_000_000),
    };
    assert_eq!(
        auth.log_text(),
        "AuthFile { openai_api_key: Some(\"[REDACTED]\"), tokens: AuthTokens { \
         id_token: \"[REDACTED]\", access_token: \"[EMPTY]\", refresh_token: \"[REDACTED]\", \
         account_id: Some(\"a\\\"b\\n\") }, last_refresh_at: Some(2023-11-14T22:13:20.120Z) }"
    );
    auth.openai_api_key = None;
    auth.tokens.account_id = None;
    auth.last_refresh_at = Some(-1);
    assert!(auth.log_text().starts_with("AuthFile { openai_api_key: None, tokens: "));
    assert!(auth
        .log_text()
        .ends_with("account_id: None }, last_refresh_at: Some(1969-12-31T23:59:59.999999999Z) }"));
    auth.last_refresh_at = None;
    assert!(auth.log_text().ends_with(", last_refresh_at: None }"));
}
