use codex_lb_rs::accounts::{open_tokens, update_account, upsert_account, Account};
use codex_lb_rs::auth_file::{claims_from_auth, AuthFile, AuthTokens};
use codex_lb_rs::crypto::TokenCrypto;
use codex_lb_rs::double::{above, at_least, nan, precedes, totally_precedes};
use codex_lb_rs::hashing::session_route_key;
use codex_lb_rs::json::{parse_bytes, parse_text, Json};
use codex_lb_rs::labels::normalize_label;
use codex_lb_rs::models::{AccountUpdateRequest, RuntimeSettings};
use codex_lb_rs::route_binding::{bind_affinities_at_epoch, bind_affinity};
use codex_lb_rs::routes::RouteTables;
use codex_lb_rs::sessions::{RolloutNode, SessionCatalog};
use codex_lb_rs::text::{
    comes_before, contains, decimal_text, parse_i64, parse_unsigned, replace_char, strip_prefix,
    strip_suffix, to_upper, trim,
};
use codex_lb_rs::usage::parse_usage_windows;
use codex_lb_rs::websocket::should_retry_on_new_connection;

const NOW: i128 = 1_700_000_000_000_000_000;

fn json(text: &str) -> Json {
    parse_text(text).expect("a JSON text")
}

fn imported(crypto: &TokenCrypto) -> Account {
    let auth = AuthFile {
        openai_api_key: None,
        tokens: AuthTokens {
            id_token: "i".to_string(),
            access_token: "a".to_string(),
            refresh_token: "r".to_string(),
            account_id: Some("chat".to_string()),
        },
        last_refresh_at: None,
    };
    let claims = claims_from_auth(&auth);
    upsert_account(crypto, None, 5, &auth, &claims, &Some("Work".to_string()), NOW)
        .ok()
        .expect("an import")
}

#[test]
fn imported_tokens_are_opened_as_they_were() {
    let (crypto, _) = TokenCrypto::create();
    let account = imported(&crypto);
    let tokens = open_tokens(&crypto, &account).unwrap();
    assert_eq!(tokens.access_token, "a");
    assert_eq!(tokens.refresh_token, "r");
    assert_eq!(tokens.id_token, "i");
    let (other, _) = TokenCrypto::create();
    assert_eq!(
        open_tokens(&other, &account).unwrap_err().message(),
        "decryption failed"
    );
}

#[test]
fn the_same_update_again_changes_nothing() {
    let (crypto, _) = TokenCrypto::create();
    let request = || AccountUpdateRequest {
        status: Some("paused".to_string()),
        label: Some(" Other ".to_string()),
        email: Some("e".to_string()),
        plan_type: None,
    };
    let once = update_account(Some(imported(&crypto)), 5, request(), NOW).ok().unwrap();
    let shown = |a: &Account| {
        (
            a.status.clone(),
            a.label.clone(),
            a.email.clone(),
            a.plan_type.clone(),
            a.encrypted_access_token.clone(),
            a.updated_at,
        )
    };
    let before = shown(&once);
    let twice = update_account(Some(once), 5, request(), NOW).ok().unwrap();
    assert_eq!(shown(&twice), before);
    assert_eq!(twice.label, "other");
}

#[test]
fn normal_forms_stay_as_they_are() {
    let label = normalize_label("  Mixed-Case_1 ").unwrap();
    assert_eq!(normalize_label(&label).unwrap(), label);
    let text = trim("\u{2003} a b \n");
    assert_eq!(text, "a b");
    assert_eq!(trim(&text), text);
    let mut settings = RuntimeSettings::default();
    settings.apply("proxy_max_attempts", &json("99"));
    let once = settings.proxy_max_attempts;
    settings.apply("proxy_max_attempts", &json("99"));
    assert_eq!((once, settings.proxy_max_attempts), (10, 10));
}

#[test]
fn doubles_compare_as_numbers() {
    let b = |x: f64| x.to_bits();
    for (x, y) in [(1.5, 1.25), (-1.0, -2.0), (0.0, -0.0), (5e-324, 0.0), (f64::INFINITY, 1e308)] {
        assert_eq!(at_least(b(x), b(y)), x >= y);
        assert_eq!(above(b(x), b(y)), x > y);
        assert_eq!(precedes(b(y), b(x)), y < x);
        assert_eq!(totally_precedes(b(y), b(x)), y.total_cmp(&x).is_lt());
    }
    assert!(!at_least(b(f64::NAN), b(1.0)) && !above(b(1.0), b(f64::NAN)));
    assert!(nan(b(f64::NAN)) && !nan(b(f64::INFINITY)));
}

#[test]
fn binding_twice_is_as_binding_once() {
    let mut tables = RouteTables::new();
    let key = session_route_key("session_id", "s");
    bind_affinity(&mut tables, &key.key_hash, &key.kind, 1, 5).unwrap();
    let first = format!("{:?}", tables.affinity.get(&key.key_hash));
    assert!(bind_affinities_at_epoch(&mut tables, &vec![key.clone()], 1, None, 5).unwrap());
    assert_eq!(format!("{:?}", tables.affinity.get(&key.key_hash)), first);
    assert_eq!((tables.roots.len(), tables.keys.len(), tables.affinity.len()), (1, 1, 1));
}

#[test]
fn members_of_a_tree_are_connected() {
    let mut catalog = SessionCatalog::new();
    for (id, session_id, parent_thread_id) in [(1, Some(1), None), (2, Some(1), Some(1)), (3, None, Some(2))] {
        catalog.insert_node(RolloutNode {
            id,
            session_id,
            parent_thread_id,
            forked_from_id: None,
            modified: 0,
        });
    }
    let tree = catalog.tree_for(3).unwrap();
    assert_eq!(tree.member_ids, vec![1, 2, 3]);
    let connected = catalog.connected_ids(3);
    assert!(tree.member_ids.iter().all(|id| connected.contains(id)));
    assert_eq!(catalog.canonical_root(tree.root_id).unwrap(), tree.root_id);
}

#[test]
fn one_window_of_each_slot_is_kept() {
    let limit = r#"{"primary_window": {"used_percent": 5, "limit_window_seconds": 60}}"#;
    let other = r#"{"primary_window": {"used_percent": 9, "limit_window_seconds": 60}}"#;
    let raw = json(&format!(
        r#"{{"rate_limit": {limit}, "additional_rate_limits": [
            {{"limit_name": "x", "metered_feature": "Codex", "rate_limit": {other}}},
            {{"limit_name": " ", "rate_limit": {other}}}]}}"#
    ));
    let windows = parse_usage_windows(&raw, NOW, &vec![]);
    assert_eq!(windows.len(), 2);
    assert_eq!(windows[0].used_percent, 5.0f64.to_bits());
    assert_eq!(windows[1].quota_key, "additional_1");
    assert_eq!(windows[1].quota_name, "Additional quota");
}

#[test]
fn complete_responses_are_kept() {
    assert!(!should_retry_on_new_connection(&json(
        r#"{"type": "response.completed", "response": {"id": "x"}}"#
    )));
    assert!(should_retry_on_new_connection(&json(r#"{"type": "error", "status": 503}"#)));
}

#[test]
fn texts_are_handled_character_by_character() {
    assert!(comes_before("a", "ab") && comes_before("ab", "b") && !comes_before("b", "b"));
    assert_eq!(to_upper("aé-Z9"), "Aé-Z9");
    assert_eq!(replace_char("a_b_", '_', ' '), "a b ");
    assert_eq!(strip_prefix("data: x", "data:").as_deref(), Some(" x"));
    assert_eq!(strip_suffix("x/y", "/y").as_deref(), Some("x"));
    assert_eq!(strip_prefix("x", "xy"), None);
    assert!(contains("abcabd", "abd") && !contains("ab", "abc"));
    assert_eq!(decimal_text(-120), "-120");
    assert_eq!(parse_i64("-9223372036854775808"), Some(i64::MIN));
    assert_eq!(parse_i64("9223372036854775808"), None);
    assert_eq!(parse_i64("+7"), Some(7));
    assert_eq!(parse_unsigned("-0", 10), None);
    assert_eq!(parse_unsigned("11", 10), None);
}

#[test]
fn json_is_read_as_it_is_written() {
    let value = parse_bytes(br#"{"b": [1, -2, 0.5, null, true], "a": "x"}"#).unwrap();
    assert_eq!(value, parse_text(r#"{"a":"x","b":[1,-2,0.5,null,true]}"#).unwrap());
    assert_eq!(value.copied(), value);
    assert!(parse_text("{").is_none());
    assert!(parse_bytes(b"\xff").is_none());
}
