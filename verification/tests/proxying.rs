use codex_lb_rs::affinity::{request_affinities, response_affinities, selection_affinity};
use codex_lb_rs::capture::{find_sse_terminal, SseTerminal, SseTerminalDetector, TailCapture};
use codex_lb_rs::error::AppError;
use codex_lb_rs::proxy::{
    attempt_step, body_message, buffer_error_body, capture_metadata, forwarded_response_headers,
    is_event_stream, judge_models_response, judge_response, judge_send_failure, latency_ms,
    proxy_attempts, request_id, retry_after_seconds, v1_models, validate_proxy_auth, AttemptEvent,
    AttemptStep, Next, Penalty, Phase, ProxyRun, ResponseStream, RunEnd, ERROR_BODY_LIMIT,
    SSE_CAPTURE_LIMIT,
};
use codex_lb_rs::route_binding::SessionRouteEpoch;
use codex_lb_rs::upstream::Header;
use uuid::Uuid;

fn header(name: &str, value: &str) -> Header {
    Header {
        name: name.to_string(),
        value: value.as_bytes().to_vec(),
    }
}

#[test]
fn proxy_attempts_use_one_attempt_when_no_accounts_so_error_is_reported() {
    assert_eq!(proxy_attempts(0, 3), 1);
}

#[test]
fn proxy_attempts_limit_by_active_accounts_and_setting() {
    assert_eq!(proxy_attempts(5, 3), 3);
    assert_eq!(proxy_attempts(2, 5), 2);
}

#[test]
fn proxy_attempts_never_use_zero_setting() {
    assert_eq!(proxy_attempts(2, 0), 1);
}

#[test]
fn affinity_values_are_hashed_and_stable() {
    let first = request_affinities(&vec![], br#"{"prompt_cache_key":"secret-session"}"#);
    let second = request_affinities(&vec![], br#"{"prompt_cache_key":"secret-session"}"#);

    assert_eq!(first, second);
    assert_eq!(first.len(), 1);
    assert_eq!(first[0].key_hash.len(), 64);
    assert!(!first[0].key_hash.contains("secret-session"));
}

#[test]
fn collects_and_deduplicates_all_request_affinity_aliases() {
    let headers = vec![
        header("x-session-id", "session-a"),
        header("x-codex-session-id", "session-a"),
    ];

    let affinities = request_affinities(
        &headers,
        br#"{"prompt_cache_key":"cache-b","session_id":"session-a"}"#,
    );

    assert_eq!(affinities.len(), 2);
    assert_eq!(affinities[0].kind, "session_id");
    assert_eq!(affinities[1].kind, "prompt_cache_key");
}

#[test]
fn capture_keeps_only_the_tail() {
    let mut capture = TailCapture::new(SSE_CAPTURE_LIMIT);
    capture.push(&vec![b'a'; SSE_CAPTURE_LIMIT - 2]);
    capture.push(b"bcde");
    let capture = capture.to_vec();

    assert_eq!(capture.len(), SSE_CAPTURE_LIMIT);
    assert_eq!(&capture[..2], b"aa");
    assert_eq!(&capture[capture.len() - 4..], b"bcde");
}

#[test]
fn terminal_detector_handles_split_marker_and_boundary() {
    let mut detector = SseTerminalDetector::default();
    assert!(detector
        .observe(b"data: {\"type\":\"response.com")
        .is_none());
    assert!(detector
        .observe(b"pleted\",\"response\":{\"usage\":{}}}\n")
        .is_none());
    assert!(matches!(
        detector.observe(b"\n"),
        Some(SseTerminal::Completed)
    ));
}

#[test]
fn detector_sees_the_same_in_one_piece_and_byte_by_byte() {
    for (text, wanted) in [
        (&b"data: {\"type\":\"response.failed\"}\r\n\r\n"[..], Some(SseTerminal::Failed)),
        (&b"event: error\ndata: {\"type\":\"error\"}\n\n"[..], Some(SseTerminal::Error)),
        (&b"data: {\"type\":\"response.incomplete\"}\n\n"[..], Some(SseTerminal::Incomplete)),
        (&b"data: {\"type\":\"response.created\"}\n\n"[..], None),
    ] {
        let mut whole = SseTerminalDetector::new();
        assert_eq!(whole.observe(text), wanted);
        let mut single = SseTerminalDetector::new();
        let mut seen = None;
        for byte in text {
            if let Some(terminal) = single.observe(&[*byte]) {
                seen = Some(terminal);
            }
        }
        assert_eq!(seen, wanted);
    }
    assert_eq!(find_sse_terminal(b"nothing"), None);
}

#[test]
fn capture_of_many_pieces_is_that_of_the_whole() {
    let mut capture = TailCapture::new(5);
    for piece in [&b"abc"[..], b"", b"defgh", b"ijklmnop", b"q"] {
        capture.push(piece);
    }
    assert_eq!(capture.to_vec(), b"mnopq");
    let mut none = TailCapture::new(0);
    none.push(b"abc");
    assert!(none.to_vec().is_empty());
}

#[test]
fn selection_goes_by_the_epoch_else_by_the_first_alias() {
    let keys = request_affinities(
        &vec![header("x-session-id", "s")],
        br#"{"prompt_cache_key":"c"}"#,
    );
    assert_eq!(selection_affinity(&keys, None), Some(0));
    let epoch = SessionRouteEpoch {
        root_key_hash: keys[0].key_hash.clone(),
        route_generation: 1,
        selection_key_hash: keys[1].key_hash.clone(),
    };
    assert_eq!(selection_affinity(&keys, Some(&epoch)), Some(1));
    assert_eq!(selection_affinity(&vec![], None), None);
    let more = response_affinities(&keys, "resp_1");
    assert_eq!(more.len(), 3);
    assert_eq!(more[2].kind, "response_id");
}

#[test]
fn answers_are_judged_by_their_status() {
    let auth = judge_response(401, "denied", &None, 60);
    assert!(matches!(&auth.penalty, Penalty::AuthFailed { reason } if reason == "denied"));
    assert_eq!(auth.next, Next::TryAnother);
    assert_eq!(auth.log_code, Some("auth_failed"));
    let limited = judge_response(429, "slow", &Some("120".to_string()), 60);
    assert!(matches!(limited.penalty, Penalty::Cooldown { seconds: 120, .. }));
    assert_eq!(
        limited.error.as_deref(),
        Some("all selected accounts were rate limited")
    );
    let broken = judge_response(503, "down", &None, 60);
    assert!(matches!(broken.penalty, Penalty::Cooldown { seconds: 10, .. }));
    assert_eq!(broken.error.as_deref(), Some("down"));
    let refused = judge_response(404, "no", &None, 60);
    assert!(matches!(refused.penalty, Penalty::Nothing));
    assert_eq!(refused.next, Next::Return);
    let good = judge_response(200, "", &None, 60);
    assert_eq!(good.next, Next::Stream);
    assert_eq!(good.log_code, None);
    let failed = judge_send_failure("reset", false);
    assert_eq!(failed.next, Next::TryAnother);
    assert_eq!(judge_models_response(200, "200 OK", "", 60).next, Next::Stream);
}

#[test]
fn waits_are_limited_to_an_hour() {
    assert_eq!(retry_after_seconds(&Some("99999".to_string()), 60), 3600);
    assert_eq!(retry_after_seconds(&Some("0".to_string()), 60), 1);
    assert_eq!(retry_after_seconds(&Some("soon".to_string()), 60), 60);
    assert_eq!(retry_after_seconds(&None, 7), 7);
}

#[test]
fn an_attempt_refreshes_its_tokens_once() {
    let step = attempt_step(Phase::Send, AttemptEvent::Answered { status: 401 }, "", false);
    assert!(matches!(step, AttemptStep::Go(Phase::Refresh)));
    let step = attempt_step(Phase::Refresh, AttemptEvent::Refreshed, "", false);
    assert!(matches!(step, AttemptStep::Go(Phase::Resend)));
    let step = attempt_step(Phase::Resend, AttemptEvent::Answered { status: 401 }, "", false);
    assert!(matches!(step, AttemptStep::Judge));
    let step = attempt_step(
        Phase::Refresh,
        AttemptEvent::RefreshFailed {
            error: "gone".to_string(),
        },
        "",
        false,
    );
    assert!(matches!(step, AttemptStep::Fail(_)));
}

#[test]
fn a_run_tries_each_account_once_and_ends_with_the_last_error() {
    let mut run = ProxyRun::new(3, 2);
    assert!(run.next_attempt());
    run.attempt_failed(7, false, AppError::Upstream("first".to_string()));
    assert_eq!(run.excluded(), &vec![7u128]);
    assert!(run.next_attempt());
    run.attempt_failed(8, false, AppError::Upstream("second".to_string()));
    assert!(!run.next_attempt());
    match run.finish("nothing") {
        RunEnd::Failed(error) => assert_eq!(error.message(), "second"),
        RunEnd::KeptResponse => panic!("no response was kept"),
    }
    let mut run = ProxyRun::new(2, 2);
    assert!(run.next_attempt());
    run.attempt_failed(7, true, AppError::Upstream("kept".to_string()));
    assert!(matches!(run.finish("nothing"), RunEnd::KeptResponse));
    let mut run = ProxyRun::new(1, 1);
    assert!(run.next_attempt());
    let error = run.selection_failed(AppError::Unavailable("none".to_string()));
    assert_eq!(error.unwrap().message(), "none");
}

#[test]
fn a_stream_is_recorded_once() {
    let mut stream = ResponseStream::new();
    let outcome = stream
        .chunk(b"data: {\"type\":\"response.completed\",\"response\":{\"id\":\"resp_9\",\"usage\":{\"input_tokens\":4,\"output_tokens\":2}}}\n\n")
        .expect("a terminal event ends the request");
    assert_eq!(outcome.status, "success");
    assert_eq!(outcome.usage.input_tokens, Some(4));
    assert_eq!(outcome.response_id.as_deref(), Some("resp_9"));
    assert!(stream.chunk(b"data: [DONE]\n\n").is_none());
    assert!(stream.stopped(None, true).is_none());

    let mut cut = ResponseStream::new();
    assert!(cut.chunk(b"data: {}\n\n").is_none());
    let outcome = cut.stopped(Some("reset".to_string()), true).unwrap();
    assert_eq!(outcome.status, "error");
    assert!(cut.stopped(None, true).is_none());
}

#[test]
fn metadata_is_read_from_events_and_from_json() {
    let (usage, id) = capture_metadata(
        &b"{\"id\":\"resp_1\",\"usage\":{\"input_tokens\":3}}".to_vec(),
        false,
    );
    assert_eq!(usage.input_tokens, Some(3));
    assert_eq!(id.as_deref(), Some("resp_1"));
    let (usage, id) = capture_metadata(&b"\xff\xfe".to_vec(), true);
    assert_eq!(usage.input_tokens, None);
    assert_eq!(id, None);
}

#[test]
fn error_bodies_are_kept_up_to_a_limit() {
    let mut body = vec![b'x'; ERROR_BODY_LIMIT - 1];
    assert!(buffer_error_body(&mut body, b"y"));
    assert_eq!(body.len(), ERROR_BODY_LIMIT);
    let mut body = vec![b'x'; ERROR_BODY_LIMIT];
    assert!(!buffer_error_body(&mut body, b"y"));
    assert_eq!(body_message(&b"bad \xff".to_vec()), "bad \u{fffd}");
}

#[test]
fn hop_by_hop_headers_stay_behind() {
    let kept = forwarded_response_headers(vec![
        header("content-type", "text/event-stream; charset=utf-8"),
        header("connection", "close"),
        header("set-cookie", "a=b"),
    ]);
    assert!(kept.iter().any(|h| h.name == "content-type"));
    assert!(!kept.iter().any(|h| h.name == "connection"));
    assert!(is_event_stream(&Some("text/event-stream; charset=utf-8".to_string())));
    assert!(!is_event_stream(&Some("application/json".to_string())));
    assert!(!is_event_stream(&None));
}

#[test]
fn requests_need_the_proxy_token_and_no_origin() {
    let token = Some("secret".to_string());
    assert!(validate_proxy_auth(&token, &vec![header("authorization", "Bearer secret")]).is_ok());
    assert!(validate_proxy_auth(&None, &vec![]).is_ok());
    let error = validate_proxy_auth(&token, &vec![header("authorization", "Bearer other")])
        .unwrap_err();
    assert_eq!(error.status_code(), 401);
    assert_eq!(error.message(), "invalid proxy token");
    let error = validate_proxy_auth(&None, &vec![header("origin", "https://x")]).unwrap_err();
    assert_eq!(error.message(), "browser-origin proxy requests are not allowed");
}

#[test]
fn a_request_keeps_its_identifier_or_gets_a_new_one() {
    assert_eq!(request_id(&vec![header("x-request-id", "mine")]), "mine");
    let fresh = request_id(&vec![header("x-request-id", "  ")]);
    let id = Uuid::parse_str(&fresh).unwrap();
    assert_eq!(id.get_version_num(), 4);
    assert_eq!(id.to_string(), fresh);
    assert_ne!(fresh, request_id(&vec![]));
}

#[test]
fn latencies_and_models() {
    assert_eq!(latency_ms(12), 12);
    assert_eq!(latency_ms(u128::MAX), i32::MAX);
    let models = v1_models();
    assert_eq!(models.get_str("object"), Some("list"));
    let data = models.get("data").unwrap().items().unwrap();
    assert_eq!(data.len(), 5);
    assert_eq!(data[0].get_str("id"), Some("gpt-5.6-terra"));
}
