use codex_lb_rs::json::{parse_text, Json};
use codex_lb_rs::proxy::Penalty;
use codex_lb_rs::session_registry::SessionRerouteSignal;
use codex_lb_rs::upstream::Header;
use codex_lb_rs::websocket::{
    connection_failure, event_status, finish_turn, handshake_failure, handshake_headers, is_rate_limited, judge_connection_failure, parse_response_create,
    refreshes_after, should_retry_on_new_connection, terminal_event, to_client_message,
    to_upstream_message, websocket_affinity, Bridge, BridgeStop, ClientMessage, CloseFrame,
    TerminalEvent, UpstreamMessage,
};
use uuid::Uuid;

fn json(text: &str) -> Json {
    parse_text(text).expect("a JSON text")
}

fn header(name: &str, value: &str) -> Header {
    Header {
        name: name.to_string(),
        value: value.as_bytes().to_vec(),
    }
}

#[test]
fn parses_websocket_response_create_metadata() {
    let request = parse_response_create(
        r#"{"type":"response.create","model":"gpt-test","client_metadata":{"turn_id":"turn-1"}}"#,
    )
    .expect("response.create");

    assert_eq!(request.request_id, "turn-1");
    assert_eq!(request.model.as_deref(), Some("gpt-test"));
}

#[test]
fn hashes_websocket_session_affinity() {
    let headers = vec![header("session-id", "private-session-value")];

    let first = websocket_affinity(&headers).expect("affinity");
    let second = websocket_affinity(&headers).expect("affinity");
    assert_eq!(first.key_hash, second.key_hash);
    assert_eq!(first.kind, "session_id");
    assert!(!first.key_hash.contains("private-session-value"));
}

#[test]
fn retryable_terminal_errors_move_to_a_new_connection() {
    assert!(should_retry_on_new_connection(&json(
        r#"{"type":"error", "status":429}"#
    )));
    assert!(should_retry_on_new_connection(&json(
        r#"{
            "type":"error",
            "status":400,
            "error":{"code":"websocket_connection_limit_reached"}
        }"#
    )));
    assert!(!should_retry_on_new_connection(&json(
        r#"{"type":"error", "status":400}"#
    )));
    assert_eq!(event_status(&json(r#"{"status_code": 429}"#)), Some(429));
    assert_eq!(event_status(&json(r#"{"status_code": "503"}"#)), Some(503));
}

#[test]
fn preserves_close_code_and_reason_across_bridge() {
    let upstream = to_upstream_message(ClientMessage::Close(Some(CloseFrame {
        code: 1008,
        reason: "policy rejected".to_string(),
    })));
    let restored = to_client_message(upstream).expect("close frame");
    let ClientMessage::Close(Some(frame)) = restored else {
        panic!("expected close frame");
    };
    assert_eq!(frame.code, 1008);
    assert_eq!(frame.reason, "policy rejected");
}

#[test]
fn other_messages_pass_as_they_are() {
    for message in [
        ClientMessage::Text("t".to_string()),
        ClientMessage::Binary(vec![1]),
        ClientMessage::Ping(vec![2]),
        ClientMessage::Pong(vec![3]),
        ClientMessage::Close(None),
    ] {
        let text = format!("{message:?}");
        let restored = to_client_message(to_upstream_message(message)).unwrap();
        assert_eq!(format!("{restored:?}"), text);
    }
    assert!(to_client_message(UpstreamMessage::Frame).is_none());
}

#[test]
fn requests_without_a_turn_get_an_identifier() {
    let request = parse_response_create(r#"{"type":"response.create"}"#).unwrap();
    assert_eq!(Uuid::parse_str(&request.request_id).unwrap().get_version_num(), 4);
    assert_eq!(request.model, None);
    assert!(parse_response_create(r#"{"type":"session.update"}"#).is_none());
    assert!(parse_response_create("not json").is_none());
}

#[test]
fn turns_end_with_what_the_upstream_says() {
    let event = json(
        r#"{"type":"response.completed","response":{"id":"resp_2","usage":{"input_tokens":5}}}"#,
    );
    assert_eq!(terminal_event(&event), Some(TerminalEvent::Completed));
    let end = finish_turn(&event, 60);
    assert_eq!(end.status, "success");
    assert_eq!(end.usage.input_tokens, Some(5));
    assert_eq!(end.response_id.as_deref(), Some("resp_2"));
    assert!(matches!(end.penalty, Penalty::Nothing));
    let event = json(r#"{"type":"error","status":429,"error":{"message":"slow down"}}"#);
    let end = finish_turn(&event, 60);
    assert_eq!(end.status, "error");
    assert!(matches!(end.penalty, Penalty::Cooldown { seconds: 60, .. }));
    assert_eq!(terminal_event(&json(r#"{"type":"response.created"}"#)), None);
}

#[test]
fn every_request_over_the_bridge_is_recorded_once() {
    let mut bridge = Bridge::new();
    let create = |id: &str| {
        ClientMessage::Text(format!(
            r#"{{"type":"response.create","client_metadata":{{"turn_id":"{id}"}}}}"#
        ))
    };
    let step = bridge.client_message(&create("one"));
    assert!(step.cut_off.is_none());
    bridge.turn_started(step.request.expect("a request"));
    let step = bridge.client_message(&create("two"));
    let (turn, _) = step.cut_off.expect("the first request is cut off");
    assert_eq!(turn.request_id, "one");
    bridge.turn_started(step.request.expect("a request"));
    let done = UpstreamMessage::Text(r#"{"type":"response.completed"}"#.to_string());
    let step = bridge.upstream_message(&done, 60);
    assert_eq!(step.ended.expect("the second request ends").0.request_id, "two");
    assert!(bridge.stopped(BridgeStop::ClientClosed).is_none());
}

#[test]
fn connections_give_way_between_requests() {
    let mut bridge = Bridge::new();
    let signal = Some(SessionRerouteSignal { generation: 2 });
    assert!(bridge.gives_way(signal));
    assert!(!bridge.gives_way(None));
    let message = ClientMessage::Text(r#"{"type":"response.create"}"#.to_string());
    let request = bridge.client_message(&message).request.expect("a request");
    bridge.turn_started(request);
    assert!(!bridge.gives_way(signal));
}

#[test]
fn a_shutdown_closes_with_its_own_code() {
    let frame = BridgeStop::Shutdown.close_frame().expect("a close frame");
    assert_eq!(frame.code, 1012);
    assert_eq!(frame.reason, "service restart");
    assert!(BridgeStop::ClientClosed.close_frame().is_none());
}

#[test]
fn failed_connections_are_judged_by_their_status() {
    assert!(refreshes_after(Some(401), false));
    assert!(!refreshes_after(Some(401), true));
    assert!(!refreshes_after(None, false));
    assert!(matches!(
        judge_connection_failure(Some(403), 60),
        Penalty::AuthFailed { .. }
    ));
    assert!(matches!(
        judge_connection_failure(Some(429), 60),
        Penalty::Cooldown { seconds: 60, .. }
    ));
    assert_eq!(
        handshake_failure("403 Forbidden", b"no \xff").message(),
        "upstream WebSocket handshake failed (403 Forbidden): no \u{fffd}"
    );
    assert_eq!(
        handshake_failure("500", &[b'x'; 2_500]).message().len(),
        "upstream WebSocket handshake failed (500): ".len() + 2_000
    );
    assert_eq!(
        connection_failure("reset").message(),
        "upstream WebSocket connection failed: reset"
    );
    assert!(matches!(
        judge_connection_failure(None, 60),
        Penalty::Cooldown { seconds: 10, .. }
    ));
}

#[test]
fn handshakes_carry_the_account_and_one_header_of_each_name() {
    let headers = handshake_headers(
        &vec![
            header("user-agent", "old"),
            header("cookie", "a=b"),
            header("user-agent", "new"),
        ],
        "token",
        &Some("acc".to_string()),
    );
    let shown: Vec<(&str, &[u8])> = headers
        .iter()
        .map(|h| (h.name.as_str(), h.value.as_slice()))
        .collect();
    assert_eq!(
        shown,
        vec![
            ("user-agent", &b"new"[..]),
            ("authorization", b"Bearer token"),
            ("chatgpt-account-id", b"acc"),
            ("openai-beta", b"responses_websockets=2026-02-06"),
        ]
    );
    let headers = handshake_headers(&vec![header("openai-beta", "mine")], "t", &None);
    assert_eq!(headers[0].value, b"mine");
    assert_eq!(headers.len(), 2);
}

#[test]
fn only_rate_limits_need_the_length_of_a_cooldown() {
    let message = |text: &str| UpstreamMessage::Text(text.to_string());
    assert!(is_rate_limited(&message(r#"{"type":"error","status":429}"#)));
    assert!(is_rate_limited(&message(r#"{"type":"response.failed","status_code":"429"}"#)));
    assert!(!is_rate_limited(&message(r#"{"type":"error","status":500}"#)));
    assert!(!is_rate_limited(&message(r#"{"type":"response.created","status":429}"#)));
    assert!(!is_rate_limited(&message("429")));
    assert!(!is_rate_limited(&UpstreamMessage::Frame));
}
