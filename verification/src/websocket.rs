//! Responses over a WebSocket: how its connection is opened, and what passes over the bridge between
//! client and upstream.
use vstd::prelude::*;
use crate::affinity::{alias, get_header, header_text, AFFINITY_VALUE_LIMIT};
use crate::auth_file::first_of;
use crate::error::{AppError, AppErrorKind};
use crate::hashing::{route_key, session_route_key};
use crate::ids::{fresh_uuid_text, is_fresh_id};
use crate::encoding::{lossy_text, text_of_lossy_utf8};
use crate::json::{
    cut_text, json_of_text, member2, member_text, opt_view, parse_text, Json, JsonNumber, JsonView,
};
use crate::keys::{RouteKeyView, SessionRouteKey};
use crate::models::{UsageData, UsageView, no_usage};
use crate::proxy::{Penalty, PenaltyView, is_auth, is_auth_status};
use crate::session_registry::SessionRerouteSignal;
use crate::text::{
    concat, decimal, decimal_value, decimals_read_back, digits, parse_unsigned, same, starts_with,
    strip_prefix, take_chars, trim, trimmed,
};
use crate::upstream::{
    copy_bytes, extract_usage_from_json, header_views, make_header, text_header, with_value, Header,
    HeaderView,
};

verus! {

/// The largest message that passes over the bridge.
pub const MAX_MESSAGE_SIZE: usize = 67108864;

/// How long opening a connection may take.
pub const CONNECT_TIMEOUT_SECONDS: u64 = 10;

/// A close frame: a code and a reason.
#[derive(Debug)]
pub struct CloseFrame {
    pub code: u16,
    pub reason: String,
}

pub struct CloseView {
    pub code: u16,
    pub reason: Seq<char>,
}

/// A message from or to the client.
#[derive(Debug)]
pub enum ClientMessage {
    Text(String),
    Binary(Vec<u8>),
    Ping(Vec<u8>),
    Pong(Vec<u8>),
    Close(Option<CloseFrame>),
}

/// A message from or to the upstream.
#[derive(Debug)]
pub enum UpstreamMessage {
    Text(String),
    Binary(Vec<u8>),
    Ping(Vec<u8>),
    Pong(Vec<u8>),
    Close(Option<CloseFrame>),
    Frame,
}

pub enum MessageView {
    Text(Seq<char>),
    Binary(Seq<u8>),
    Ping(Seq<u8>),
    Pong(Seq<u8>),
    Close(Option<CloseView>),
    Frame,
}

pub open spec fn close_view(frame: Option<CloseFrame>) -> Option<CloseView> {
    match frame {
        Some(f) => Some(CloseView { code: f.code, reason: f.reason@ }),
        None => None,
    }
}

impl View for ClientMessage {
    type V = MessageView;

    open spec fn view(&self) -> MessageView {
        match *self {
            ClientMessage::Text(text) => MessageView::Text(text@),
            ClientMessage::Binary(bytes) => MessageView::Binary(bytes@),
            ClientMessage::Ping(bytes) => MessageView::Ping(bytes@),
            ClientMessage::Pong(bytes) => MessageView::Pong(bytes@),
            ClientMessage::Close(frame) => MessageView::Close(close_view(frame)),
        }
    }
}

impl View for UpstreamMessage {
    type V = MessageView;

    open spec fn view(&self) -> MessageView {
        match *self {
            UpstreamMessage::Text(text) => MessageView::Text(text@),
            UpstreamMessage::Binary(bytes) => MessageView::Binary(bytes@),
            UpstreamMessage::Ping(bytes) => MessageView::Ping(bytes@),
            UpstreamMessage::Pong(bytes) => MessageView::Pong(bytes@),
            UpstreamMessage::Close(frame) => MessageView::Close(close_view(frame)),
            UpstreamMessage::Frame => MessageView::Frame,
        }
    }
}

/// A client's message as it goes to the upstream: unchanged.
pub fn to_upstream_message(message: ClientMessage) -> (r: UpstreamMessage)
    ensures
        r@ == message@,
{
    match message {
        ClientMessage::Text(text) => UpstreamMessage::Text(text),
        ClientMessage::Binary(bytes) => UpstreamMessage::Binary(bytes),
        ClientMessage::Ping(bytes) => UpstreamMessage::Ping(bytes),
        ClientMessage::Pong(bytes) => UpstreamMessage::Pong(bytes),
        ClientMessage::Close(frame) => UpstreamMessage::Close(frame),
    }
}

/// The upstream's message as it goes to the client: unchanged, but for raw frames, which do not.
pub fn to_client_message(message: UpstreamMessage) -> (r: Option<ClientMessage>)
    ensures
        match r {
            Some(m) => m@ == message@,
            None => message@ is Frame,
        },
{
    match message {
        UpstreamMessage::Text(text) => Some(ClientMessage::Text(text)),
        UpstreamMessage::Binary(bytes) => Some(ClientMessage::Binary(bytes)),
        UpstreamMessage::Ping(bytes) => Some(ClientMessage::Ping(bytes)),
        UpstreamMessage::Pong(bytes) => Some(ClientMessage::Pong(bytes)),
        UpstreamMessage::Close(frame) => Some(ClientMessage::Close(frame)),
        UpstreamMessage::Frame => None,
    }
}

/// Headers of the client's handshake that are passed on.
pub open spec fn forwards_handshake_header(name: Seq<char>) -> bool {
    ||| name == "user-agent"@
    ||| name == "originator"@
    ||| name == "openai-beta"@
    ||| name == "accept-language"@
    ||| name == "session-id"@
    ||| name == "thread-id"@
    ||| name == "x-session-id"@
    ||| name == "x-client-request-id"@
    ||| name == "traceparent"@
    ||| name == "tracestate"@
    ||| starts_with(name, "x-codex-"@)
    ||| starts_with(name, "x-openai-"@)
    ||| starts_with(name, "x-stainless-"@)
}

pub fn should_forward_handshake_header(name: &str) -> (r: bool)
    ensures
        r == forwards_handshake_header(name@),
{
    same(name, "user-agent") || same(name, "originator") || same(name, "openai-beta") || same(
        name,
        "accept-language",
    ) || same(name, "session-id") || same(name, "thread-id") || same(name, "x-session-id") || same(
        name,
        "x-client-request-id",
    ) || same(name, "traceparent") || same(name, "tracestate") || strip_prefix(
        name,
        "x-codex-",
    ).is_some() || strip_prefix(name, "x-openai-").is_some() || strip_prefix(
        name,
        "x-stainless-",
    ).is_some()
}

/// Headers of the upstream's handshake that the client is given.
pub open spec fn copies_handshake_header(name: Seq<char>) -> bool {
    name == "x-reasoning-included"@ || name == "x-models-etag"@ || name == "openai-model"@ || name
        == "x-codex-turn-state"@
}

pub fn should_copy_handshake_header(name: &str) -> (r: bool)
    ensures
        r == copies_handshake_header(name@),
{
    same(name, "x-reasoning-included") || same(name, "x-models-etag") || same(name, "openai-model")
        || same(name, "x-codex-turn-state")
}

/// The alias by which a WebSocket's session is told: the first of its headers that has one.
pub open spec fn socket_alias(headers: Seq<HeaderView>) -> Option<RouteKeyView> {
    let session = first_of(
        alias(header_text(headers, "session-id"@)),
        first_of(
            alias(header_text(headers, "x-session-id"@)),
            alias(header_text(headers, "x-codex-session-id"@)),
        ),
    );
    let thread = first_of(
        alias(header_text(headers, "thread-id"@)),
        alias(header_text(headers, "x-client-request-id"@)),
    );
    match session {
        Some(value) => Some(route_key("session_id"@, value)),
        None => match thread {
            Some(value) => Some(route_key("thread_id"@, value)),
            None => None,
        },
    }
}

fn alias_of(value: Option<String>) -> (r: Option<String>)
    ensures
        r.deep_view() == alias(value.deep_view()),
{
    match value {
        Some(text) => {
            let t = trim(&text);
            if !t.as_str().is_empty() && t.as_str().as_bytes().len() <= AFFINITY_VALUE_LIMIT {
                Some(t)
            } else {
                None
            }
        },
        None => None,
    }
}

pub fn websocket_affinity(headers: &Vec<Header>) -> (r: Option<SessionRouteKey>)
    ensures
        match r {
            Some(key) => socket_alias(header_views(headers@)) == Some(key@),
            None => socket_alias(header_views(headers@)) is None,
        },
{
    if let Some(value) = alias_of(get_header(headers, "session-id")) {
        return Some(session_route_key("session_id", &value));
    }
    if let Some(value) = alias_of(get_header(headers, "x-session-id")) {
        return Some(session_route_key("session_id", &value));
    }
    if let Some(value) = alias_of(get_header(headers, "x-codex-session-id")) {
        return Some(session_route_key("session_id", &value));
    }
    if let Some(value) = alias_of(get_header(headers, "thread-id")) {
        return Some(session_route_key("thread_id", &value));
    }
    if let Some(value) = alias_of(get_header(headers, "x-client-request-id")) {
        return Some(session_route_key("thread_id", &value));
    }
    None
}

/// What is done to an account whose connection could not be opened.
pub open spec fn connection_penalty(status: Option<u16>, cooldown: int) -> PenaltyView {
    if status is Some && is_auth(status->0) {
        PenaltyView::AuthFailed {
            reason: "upstream WebSocket authentication failed after refresh"@,
        }
    } else if status == Some(429u16) {
        PenaltyView::Cooldown { seconds: cooldown, reason: "upstream WebSocket rate limited"@ }
    } else {
        PenaltyView::Cooldown { seconds: 10, reason: "upstream WebSocket unavailable"@ }
    }
}

/// Whether the tokens are refreshed after a connection was refused: once, where they were why.
pub fn refreshes_after(status: Option<u16>, refreshed: bool) -> (r: bool)
    ensures
        r == (!refreshed && status is Some && is_auth(status->0)),
{
    match status {
        Some(code) => !refreshed && is_auth_status(code),
        None => false,
    }
}

pub fn judge_connection_failure(status: Option<u16>, cooldown_seconds: i64) -> (r: Penalty)
    ensures
        r@ == connection_penalty(status, cooldown_seconds as int),
{
    if let Some(code) = status {
        if is_auth_status(code) {
            return Penalty::AuthFailed {
                reason: "upstream WebSocket authentication failed after refresh".to_owned(),
            };
        }
        if code == 429 {
            return Penalty::Cooldown {
                seconds: cooldown_seconds,
                reason: "upstream WebSocket rate limited",
            };
        }
    }
    Penalty::Cooldown { seconds: 10, reason: "upstream WebSocket unavailable" }
}

/// What is reported of a handshake that the upstream refused, with the start of its answer.
pub fn handshake_failure(status_text: &str, body: &[u8]) -> (r: AppError)
    ensures
        r@ == (
            AppErrorKind::Upstream,
            "upstream WebSocket handshake failed ("@ + status_text@ + "): "@ + cut_text(
                lossy_text(body@),
                2000,
            ),
        ),
{
    let start = concat("upstream WebSocket handshake failed (", status_text);
    let middle = concat(&start, "): ");
    let text = text_of_lossy_utf8(body);
    AppError::Upstream(concat(&middle, &take_chars(&text, 2000)))
}

/// What is reported of a connection that failed otherwise.
pub fn connection_failure(error: &str) -> (r: AppError)
    ensures
        r@ == (AppErrorKind::Upstream, "upstream WebSocket connection failed: "@ + error@),
{
    AppError::Upstream(concat("upstream WebSocket connection failed: ", error))
}

/// What is reported, and noted of the account, where its tokens could not be refreshed.
pub fn refresh_failure(error: &str) -> (r: AppError)
    ensures
        r@ == (AppErrorKind::Upstream, "WebSocket authentication refresh failed: "@ + error@),
{
    AppError::Upstream(concat("WebSocket authentication refresh failed: ", error))
}

/// A request over the bridge.
#[derive(Debug)]
pub struct ParsedRequest {
    pub request_id: String,
    pub model: Option<String>,
}

/// The text of a member of the client's metadata.
pub open spec fn client_metadata(v: JsonView, name: Seq<char>) -> Option<Seq<char>> {
    match member2(v, "client_metadata"@, name) {
        Some(inner) => inner.text(),
        None => None,
    }
}

/// Whether a message asks for a response.
pub open spec fn asks_response(v: Option<JsonView>) -> bool {
    match v {
        Some(x) => member_text(x, "type"@) == Some("response.create"@),
        None => false,
    }
}

/// The identifier that a client gives its request: the first that is a text, where it is more than
/// white space.
pub open spec fn client_request_id(v: JsonView) -> Option<Seq<char>> {
    match first_of(
        client_metadata(v, "turn_id"@),
        first_of(
            client_metadata(v, "request_id"@),
            client_metadata(v, "x-codex-ws-stream-request-start-ms"@),
        ),
    ) {
        Some(text) => if trimmed(text).len() > 0 {
            Some(text)
        } else {
            None
        },
        None => None,
    }
}

fn metadata_text(v: &Json, name: &str) -> (r: Option<String>)
    ensures
        r.deep_view() == client_metadata(v@, name@),
{
    match v.get2("client_metadata", name) {
        Some(inner) => match inner.as_str() {
            Some(text) => Some(text.to_owned()),
            None => None,
        },
        None => None,
    }
}

/// A request for a response, given the JSON of the message.
pub fn read_response_create(value: &Json) -> (r: Option<ParsedRequest>)
    ensures
        r is Some <==> asks_response(Some(value@)),
        r matches Some(request) ==> request.model.deep_view() == member_text(value@, "model"@)
            && match client_request_id(value@) {
            Some(id) => request.request_id@ == id,
            None => is_fresh_id(request.request_id@),
        },
{
    let wanted = match value.get_str("type") {
        Some(text) => same(text, "response.create"),
        None => false,
    };
    if !wanted {
        return None;
    }
    let given = match metadata_text(value, "turn_id") {
        Some(text) => Some(text),
        None => match metadata_text(value, "request_id") {
            Some(text) => Some(text),
            None => metadata_text(value, "x-codex-ws-stream-request-start-ms"),
        },
    };
    let request_id = match given {
        Some(text) => if trim(&text).as_str().is_empty() {
            fresh_uuid_text()
        } else {
            text
        },
        None => fresh_uuid_text(),
    };
    let model = match value.get_str("model") {
        Some(text) => Some(text.to_owned()),
        None => None,
    };
    Some(ParsedRequest { request_id, model })
}

/// A request for a response, where a message is one.
pub fn parse_response_create(text: &str) -> (r: Option<ParsedRequest>)
    ensures
        r is Some <==> asks_response(json_of_text(text@)),
        r matches Some(request) ==> request.model.deep_view() == member_text(
            json_of_text(text@)->0,
            "model"@,
        ) && match client_request_id(json_of_text(text@)->0) {
            Some(id) => request.request_id@ == id,
            None => is_fresh_id(request.request_id@),
        },
{
    match parse_text(text) {
        Some(value) => read_response_create(&value),
        None => None,
    }
}

/// How an event ends a response.
#[derive(Debug, Clone, Copy, PartialEq, Eq, Structural)]
pub enum TerminalEvent {
    Completed,
    Incomplete,
    Failed,
    Error,
}

pub open spec fn terminal_of(v: JsonView) -> Option<TerminalEvent> {
    match member_text(v, "type"@) {
        Some(text) => if text == "response.completed"@ {
            Some(TerminalEvent::Completed)
        } else if text == "response.incomplete"@ {
            Some(TerminalEvent::Incomplete)
        } else if text == "response.failed"@ {
            Some(TerminalEvent::Failed)
        } else if text == "error"@ {
            Some(TerminalEvent::Error)
        } else {
            None
        },
        None => None,
    }
}

pub fn terminal_event(value: &Json) -> (r: Option<TerminalEvent>)
    ensures
        r == terminal_of(value@),
{
    match value.get_str("type") {
        Some(text) => if same(text, "response.completed") {
            Some(TerminalEvent::Completed)
        } else if same(text, "response.incomplete") {
            Some(TerminalEvent::Incomplete)
        } else if same(text, "response.failed") {
            Some(TerminalEvent::Failed)
        } else if same(text, "error") {
            Some(TerminalEvent::Error)
        } else {
            None
        },
        None => None,
    }
}

/// The status of an event: a natural number, or a text that is one.
pub open spec fn status_of(v: JsonView) -> Option<u64> {
    match first_of(v.get("status"@), v.get("status_code"@)) {
        Some(JsonView::Number(JsonNumber::PosInt(n))) => Some(n),
        Some(JsonView::Str(text)) => match decimal_value(text) {
            Some(n) => if text[0] != '-' && n <= u64::MAX {
                Some(n as u64)
            } else {
                None
            },
            None => None,
        },
        _ => None,
    }
}

pub fn event_status(value: &Json) -> (r: Option<u64>)
    ensures
        r == status_of(value@),
{
    let found = match value.get("status") {
        Some(inner) => Some(inner),
        None => value.get("status_code"),
    };
    match found {
        Some(Json::Number(JsonNumber::PosInt(n))) => Some(*n),
        Some(Json::Str(text)) => parse_unsigned(text, u64::MAX),
        _ => None,
    }
}

/// Whether the client should try again on a new connection.
pub open spec fn retries(v: JsonView) -> bool {
    ||| match status_of(v) {
        Some(n) => n == 401 || n == 403 || n == 429 || 500 <= n <= 599,
        None => false,
    }
    ||| match member2(v, "error"@, "code"@) {
        Some(code) => code.text() == Some("websocket_connection_limit_reached"@),
        None => false,
    }
}

pub fn should_retry_on_new_connection(value: &Json) -> (r: bool)
    ensures
        r == retries(value@),
{
    if let Some(n) = event_status(value) {
        if n == 401 || n == 403 || n == 429 || (500 <= n && n <= 599) {
            return true;
        }
    }
    match value.get2("error", "code") {
        Some(code) => match code.as_str() {
            Some(text) => same(text, "websocket_connection_limit_reached"),
            None => false,
        },
        None => false,
    }
}

/// What is recorded of a request over the bridge, and what follows for its account.
#[derive(Debug)]
pub struct TurnEnd {
    pub status: &'static str,
    pub error_code: Option<String>,
    pub error_message: Option<String>,
    pub usage: UsageData,
    pub response_id: Option<String>,
    pub penalty: Penalty,
}

pub struct TurnEndView {
    pub status: Seq<char>,
    pub error_code: Option<Seq<char>>,
    pub error_message: Option<Seq<char>>,
    pub usage: UsageView,
    pub response_id: Option<Seq<char>>,
    pub penalty: PenaltyView,
}

impl View for TurnEnd {
    type V = TurnEndView;

    open spec fn view(&self) -> TurnEndView {
        TurnEndView {
            status: self.status@,
            error_code: self.error_code.deep_view(),
            error_message: self.error_message.deep_view(),
            usage: self.usage@,
            response_id: self.response_id.deep_view(),
            penalty: self.penalty@,
        }
    }
}

pub open spec fn text_opt(v: Option<JsonView>) -> Option<Seq<char>> {
    match v {
        Some(x) => x.text(),
        None => None,
    }
}

/// What is done to an account because of an event that reports an error.
pub open spec fn event_penalty(
    v: JsonView,
    message: Option<Seq<char>>,
    cooldown: int,
) -> PenaltyView {
    match status_of(v) {
        Some(n) => if n == 429 {
            PenaltyView::Cooldown { seconds: cooldown, reason: "upstream WebSocket rate limited"@ }
        } else if n == 401 || n == 403 {
            PenaltyView::AuthFailed {
                reason: match message {
                    Some(text) => text,
                    None => "upstream WebSocket authentication failed"@,
                },
            }
        } else if 500 <= n <= 599 {
            PenaltyView::Cooldown { seconds: 10, reason: "upstream WebSocket server error"@ }
        } else {
            PenaltyView::Nothing
        },
        None => PenaltyView::Nothing,
    }
}

/// What the event that ends a request tells of it.
pub open spec fn turn_end(v: JsonView, cooldown: int) -> TurnEndView {
    let terminal = match terminal_of(v) {
        Some(t) => t,
        None => TerminalEvent::Error,
    };
    let fallback = match terminal {
        TerminalEvent::Completed => None,
        TerminalEvent::Incomplete => Some("response_incomplete"@),
        TerminalEvent::Failed => Some("response_failed"@),
        TerminalEvent::Error => Some("upstream_error"@),
    };
    let message = text_opt(first_of(member2(v, "error"@, "message"@), v.get("message"@)));
    TurnEndView {
        status: if terminal == TerminalEvent::Completed {
            "success"@
        } else {
            "error"@
        },
        error_code: first_of(
            text_opt(first_of(member2(v, "error"@, "code"@), member2(v, "error"@, "type"@))),
            fallback,
        ),
        error_message: message,
        usage: with_value(no_usage(), v),
        response_id: text_opt(first_of(member2(v, "response"@, "id"@), v.get("id"@))),
        penalty: if terminal == TerminalEvent::Completed {
            PenaltyView::Nothing
        } else {
            event_penalty(v, message, cooldown)
        },
    }
}

fn text_of(v: Option<&Json>) -> (r: Option<String>)
    ensures
        r.deep_view() == text_opt(opt_view(v)),
{
    match v {
        Some(inner) => match inner.as_str() {
            Some(text) => Some(text.to_owned()),
            None => None,
        },
        None => None,
    }
}

fn either<'a>(a: Option<&'a Json>, b: Option<&'a Json>) -> (r: Option<&'a Json>)
    ensures
        opt_view(r) == first_of(opt_view(a), opt_view(b)),
{
    match a {
        Some(x) => Some(x),
        None => b,
    }
}

fn terminal_error_penalty(event: &Json, message: &Option<String>, cooldown_seconds: i64) -> (r:
    Penalty)
    ensures
        r@ == event_penalty(event@, message.deep_view(), cooldown_seconds as int),
{
    match event_status(event) {
        Some(n) => if n == 429 {
            Penalty::Cooldown {
                seconds: cooldown_seconds,
                reason: "upstream WebSocket rate limited",
            }
        } else if n == 401 || n == 403 {
            Penalty::AuthFailed {
                reason: match message {
                    Some(text) => text.clone(),
                    None => "upstream WebSocket authentication failed".to_owned(),
                },
            }
        } else if 500 <= n && n <= 599 {
            Penalty::Cooldown { seconds: 10, reason: "upstream WebSocket server error" }
        } else {
            Penalty::Nothing
        },
        None => Penalty::Nothing,
    }
}

/// What the event that ends a request tells of it.
pub fn finish_turn(event: &Json, cooldown_seconds: i64) -> (r: TurnEnd)
    ensures
        r@ == turn_end(event@, cooldown_seconds as int),
{
    let (status, fallback): (&'static str, Option<&'static str>) = match terminal_event(event) {
        Some(TerminalEvent::Completed) => ("success", None),
        Some(TerminalEvent::Incomplete) => ("error", Some("response_incomplete")),
        Some(TerminalEvent::Failed) => ("error", Some("response_failed")),
        _ => ("error", Some("upstream_error")),
    };
    let completed = fallback.is_none();
    let error_code = match text_of(either(event.get2("error", "code"), event.get2("error", "type"))) {
        Some(text) => Some(text),
        None => match fallback {
            Some(text) => Some(text.to_owned()),
            None => None,
        },
    };
    let error_message = text_of(either(event.get2("error", "message"), event.get("message")));
    let penalty = if completed {
        Penalty::Nothing
    } else {
        terminal_error_penalty(event, &error_message, cooldown_seconds)
    };
    TurnEnd {
        status,
        error_code,
        error_message,
        usage: extract_usage_from_json(event),
        response_id: text_of(either(event.get2("response", "id"), event.get("id"))),
        penalty,
    }
}

/// What is recorded of a request that was cut off.
pub open spec fn cut_off(message: Seq<char>) -> TurnEndView {
    TurnEndView {
        status: "error"@,
        error_code: Some("websocket_disconnected"@),
        error_message: Some(message),
        usage: no_usage(),
        response_id: None,
        penalty: PenaltyView::Nothing,
    }
}

pub fn finish_disconnected_turn(message: &str) -> (r: TurnEnd)
    ensures
        r@ == cut_off(message@),
{
    TurnEnd {
        status: "error",
        error_code: Some("websocket_disconnected".to_owned()),
        error_message: Some(message.to_owned()),
        usage: UsageData::none(),
        response_id: None,
        penalty: Penalty::Nothing,
    }
}

/// Why a bridge stops.
#[derive(Debug, Clone, Copy, PartialEq, Eq, Structural)]
pub enum BridgeStop {
    TurnTimeout,
    ClientClosed,
    ClientIdle,
    ClientReadFailed,
    AccountingFailed,
    UpstreamWriteFailed,
    UpstreamWriteTimeout,
    UpstreamClosed,
    UpstreamIdle,
    UpstreamReadFailed,
    RetryRequested,
    ClientWriteFailed,
    ClientWriteTimeout,
    Shutdown,
}

/// What a connection is closed with, where the reason for it is told.
pub open spec fn closing_of(stop: BridgeStop) -> Option<CloseView> {
    if stop == BridgeStop::Shutdown {
        Some(CloseView { code: 1012, reason: "service restart"@ })
    } else {
        None
    }
}

impl BridgeStop {
    pub open spec fn text(self) -> Seq<char> {
        match self {
            BridgeStop::TurnTimeout =>
                "WebSocket request exceeded the configured request budget"@,
            BridgeStop::ClientClosed => "Codex closed the WebSocket before a terminal response"@,
            BridgeStop::ClientIdle => "Codex WebSocket idle timeout before a terminal response"@,
            BridgeStop::ClientReadFailed =>
                "Codex WebSocket read failed before a terminal response"@,
            BridgeStop::AccountingFailed => "local request accounting failed"@,
            BridgeStop::UpstreamWriteFailed =>
                "upstream WebSocket write failed before a terminal response"@,
            BridgeStop::UpstreamWriteTimeout =>
                "upstream WebSocket write timeout before a terminal response"@,
            BridgeStop::UpstreamClosed =>
                "upstream WebSocket closed before a terminal response"@,
            BridgeStop::UpstreamIdle =>
                "upstream WebSocket idle timeout before a terminal response"@,
            BridgeStop::UpstreamReadFailed =>
                "upstream WebSocket read failed before a terminal response"@,
            BridgeStop::RetryRequested =>
                "upstream requested a retry on a new WebSocket connection"@,
            BridgeStop::ClientWriteFailed =>
                "Codex WebSocket write failed before a terminal response"@,
            BridgeStop::ClientWriteTimeout =>
                "Codex WebSocket write timeout before a terminal response"@,
            BridgeStop::Shutdown => "service restart"@,
        }
    }

    pub fn message(self) -> (r: &'static str)
        ensures
            r@ == self.text(),
    {
        match self {
            BridgeStop::TurnTimeout => "WebSocket request exceeded the configured request budget",
            BridgeStop::ClientClosed => "Codex closed the WebSocket before a terminal response",
            BridgeStop::ClientIdle => "Codex WebSocket idle timeout before a terminal response",
            BridgeStop::ClientReadFailed =>
                "Codex WebSocket read failed before a terminal response",
            BridgeStop::AccountingFailed => "local request accounting failed",
            BridgeStop::UpstreamWriteFailed =>
                "upstream WebSocket write failed before a terminal response",
            BridgeStop::UpstreamWriteTimeout =>
                "upstream WebSocket write timeout before a terminal response",
            BridgeStop::UpstreamClosed => "upstream WebSocket closed before a terminal response",
            BridgeStop::UpstreamIdle =>
                "upstream WebSocket idle timeout before a terminal response",
            BridgeStop::UpstreamReadFailed =>
                "upstream WebSocket read failed before a terminal response",
            BridgeStop::RetryRequested =>
                "upstream requested a retry on a new WebSocket connection",
            BridgeStop::ClientWriteFailed =>
                "Codex WebSocket write failed before a terminal response",
            BridgeStop::ClientWriteTimeout =>
                "Codex WebSocket write timeout before a terminal response",
            BridgeStop::Shutdown => "service restart",
        }
    }

    /// The close frame that the client is sent: it is told when the daemon restarts.
    pub fn close_frame(self) -> (r: Option<CloseFrame>)
        ensures
            close_view(r) == if self == BridgeStop::Shutdown {
                Some(CloseView { code: 1012, reason: "service restart"@ })
            } else {
                None
            },
            close_view(r) == closing_of(self),
    {
        if self == BridgeStop::Shutdown {
            Some(CloseFrame { code: 1012, reason: "service restart".to_owned() })
        } else {
            None
        }
    }
}

/// The request that is under way over a bridge.
pub struct Turn {
    pub request_id: String,
    pub model: Option<String>,
}

pub struct TurnView {
    pub request_id: Seq<char>,
    pub model: Option<Seq<char>>,
}

pub open spec fn turn_view(turn: Option<Turn>) -> Option<TurnView> {
    match turn {
        Some(t) => Some(TurnView { request_id: t.request_id@, model: t.model.deep_view() }),
        None => None,
    }
}

/// One where there is a value, else none.
pub open spec fn count<T>(value: Option<T>) -> int {
    if value is Some {
        1
    } else {
        0
    }
}

/// A bridge between a client and the upstream: at most one request is under way.
pub struct Bridge {
    pub turn: Option<Turn>,
}

/// What a message of the client asks for before it is passed on.
pub struct ClientStep {
    /// The request that was under way, and what is recorded of it: a new one has cut it off.
    pub cut_off: Option<(Turn, TurnEnd)>,
    /// The request to take on.
    pub request: Option<ParsedRequest>,
    /// Whether the bridge stops once the message is passed on.
    pub closes: bool,
}

/// What a message of the upstream asks for before it is passed on.
pub struct UpstreamStep {
    /// The request that it ends, and what is recorded of it.
    pub ended: Option<(Turn, TurnEnd)>,
    /// Whether the message is not passed on, and the client has to connect anew.
    pub retry: bool,
    /// Whether the bridge stops once the message is passed on.
    pub closes: bool,
}

pub open spec fn started_text() -> Seq<char> {
    "a new WebSocket request started before the previous request completed"@
}

/// The JSON of a message, where it is any.
pub open spec fn message_json(m: MessageView) -> Option<JsonView> {
    match m {
        MessageView::Text(text) => json_of_text(text),
        _ => None,
    }
}

/// The event by which a message ends a request, where it does.
pub open spec fn ending(m: MessageView) -> Option<JsonView> {
    match message_json(m) {
        Some(v) => if terminal_of(v) is Some {
            Some(v)
        } else {
            None
        },
        None => None,
    }
}

/// Whether a message ends a response because the account is rate limited.
pub open spec fn limits(m: MessageView) -> bool {
    ending(m) matches Some(event) && status_of(event) == Some(429u64)
}

/// Whether a message ends a response because the account is rate limited: only then does the length of
/// a cooldown matter.
pub fn is_rate_limited(message: &UpstreamMessage) -> (r: bool)
    ensures
        r == limits(message@),
{
    if let UpstreamMessage::Text(text) = message {
        if let Some(event) = parse_text(text) {
            return terminal_event(&event).is_some() && event_status(&event) == Some(429);
        }
    }
    false
}

/// The length of a cooldown matters to no message but one that ends a response because the account is
/// rate limited.
pub proof fn cooldown_matters_to_limits_only(m: MessageView, a: int, b: int)
    requires
        !limits(m),
        ending(m) is Some,
    ensures
        turn_end(ending(m)->0, a) == turn_end(ending(m)->0, b),
{
}

/// Whether a connection gives way to a new one: its session has moved, and no request is under way.
pub open spec fn yields(signal: Option<SessionRerouteSignal>, turn: Option<TurnView>) -> bool {
    signal is Some && turn is None
}

impl Bridge {
    pub fn new() -> (r: Bridge)
        ensures
            r.turn is None,
    {
        Bridge { turn: None }
    }

    /// A message of the client has come. A request for a response cuts off the one under way.
    /// A request that leaves the bridge is recorded, once.
    pub fn client_message(&mut self, message: &ClientMessage) -> (r: ClientStep)
        ensures
            count(old(self).turn) == count(r.cut_off) + count(final(self).turn),
            r.closes == (message@ is Close),
            r.request is Some <==> asks_response(message_json(message@)),
            match r.request {
                Some(request) => {
                    &&& final(self).turn is None
                    &&& request.model.deep_view() == member_text(
                        message_json(message@)->0,
                        "model"@,
                    )
                    &&& match client_request_id(message_json(message@)->0) {
                        Some(id) => request.request_id@ == id,
                        None => is_fresh_id(request.request_id@),
                    }
                    &&& match r.cut_off {
                        Some((turn, end)) => turn_view(Some(turn)) == turn_view(old(self).turn)
                            && end@ == cut_off(started_text()),
                        None => old(self).turn is None,
                    }
                },
                None => r.cut_off is None && final(self).turn == old(self).turn,
            },
    {
        let closes = matches!(message, ClientMessage::Close(_));
        let request = match message {
            ClientMessage::Text(text) => parse_response_create(text),
            _ => None,
        };
        if request.is_none() {
            return ClientStep { cut_off: None, request: None, closes };
        }
        let cut_off = match self.turn.take() {
            Some(turn) => Some(
                (
                    turn,
                    finish_disconnected_turn(
                        "a new WebSocket request started before the previous request completed",
                    ),
                ),
            ),
            None => None,
        };
        ClientStep { cut_off, request, closes }
    }

    /// Whether a connection that was told to move is given up now: between requests, not during one.
    pub fn gives_way(&self, signal: Option<SessionRerouteSignal>) -> (r: bool)
        ensures
            r == (signal is Some && self.turn is None),
            r == yields(signal, turn_view(self.turn)),
    {
        signal.is_some() && self.turn.is_none()
    }

    /// The request was taken on.
    pub fn turn_started(&mut self, request: ParsedRequest)
        requires
            old(self).turn is None,
        ensures
            turn_view(final(self).turn) == Some(
                TurnView {
                    request_id: request.request_id@,
                    model: request.model.deep_view(),
                },
            ),
    {
        self.turn = Some(Turn { request_id: request.request_id, model: request.model });
    }

    /// A message of the upstream has come. An event that ends a response ends the request under
    /// way. A request that leaves the bridge is recorded, once.
    pub fn upstream_message(&mut self, message: &UpstreamMessage, cooldown_seconds: i64) -> (r:
        UpstreamStep)
        ensures
            count(old(self).turn) == count(r.ended) + count(final(self).turn),
            r.closes == (message@ is Close),
            match ending(message@) {
                Some(event) => {
                    &&& final(self).turn is None
                    &&& r.retry == retries(event)
                    &&& match r.ended {
                        Some((turn, end)) => turn_view(Some(turn)) == turn_view(old(self).turn)
                            && end@ == turn_end(event, cooldown_seconds as int),
                        None => old(self).turn is None,
                    }
                },
                None => !r.retry && r.ended is None && final(self).turn == old(self).turn,
            },
    {
        let closes = matches!(message, UpstreamMessage::Close(_));
        if let UpstreamMessage::Text(text) = message {
            if let Some(event) = parse_text(text) {
                if terminal_event(&event).is_some() {
                    let retry = should_retry_on_new_connection(&event);
                    let ended = match self.turn.take() {
                        Some(turn) => Some((turn, finish_turn(&event, cooldown_seconds))),
                        None => None,
                    };
                    return UpstreamStep { ended, retry, closes };
                }
            }
        }
        UpstreamStep { ended: None, retry: false, closes }
    }

    /// The bridge has stopped. The request under way, where there is one, is recorded as cut off.
    pub fn stopped(&mut self, stop: BridgeStop) -> (r: Option<(Turn, TurnEnd)>)
        ensures
            final(self).turn is None,
            count(old(self).turn) == count(r),
            match r {
                Some((turn, end)) => turn_view(Some(turn)) == turn_view(old(self).turn) && end@
                    == cut_off(stop.text()),
                None => old(self).turn is None,
            },
    {
        match self.turn.take() {
            Some(turn) => Some((turn, finish_disconnected_turn(stop.message()))),
            None => None,
        }
    }
}

/// An event that asks for a retry never reports a response as complete, unless the upstream gave it
/// a failing status.
pub proof fn complete_responses_are_not_retried(v: JsonView)
    requires
        terminal_of(v) == Some(TerminalEvent::Completed),
        status_of(v) is None,
        v.get("error"@) is None,
    ensures
        !retries(v),
{
}

/// The place of the first header with a name.
pub open spec fn header_place(headers: Seq<HeaderView>, name: Seq<char>) -> int
    decreases headers.len(),
{
    if headers.len() == 0 {
        0
    } else if headers[0].name == name {
        0
    } else {
        1 + header_place(headers.drop_first(), name)
    }
}

/// The headers with one more, which takes the place of one with the same name.
pub open spec fn with_header(headers: Seq<HeaderView>, header: HeaderView) -> Seq<HeaderView> {
    let at = header_place(headers, header.name);
    if at < headers.len() {
        headers.update(at, header)
    } else {
        headers.push(header)
    }
}

/// The first `n` headers of a handshake that are passed on.
pub open spec fn passed_on(incoming: Seq<HeaderView>, n: int) -> Seq<HeaderView>
    decreases n,
{
    if n <= 0 {
        Seq::empty()
    } else if forwards_handshake_header(incoming[n - 1].name) {
        with_header(passed_on(incoming, n - 1), incoming[n - 1])
    } else {
        passed_on(incoming, n - 1)
    }
}

/// The headers of the handshake with the upstream: those passed on, the account's own, and the
/// protocol where the client names none.
pub open spec fn upstream_handshake(
    incoming: Seq<HeaderView>,
    token: Seq<char>,
    account: Option<Seq<char>>,
) -> Seq<HeaderView> {
    let passed = passed_on(incoming, incoming.len() as int);
    let signed = with_header(passed, text_header("authorization"@, "Bearer "@ + token));
    let owned = match account {
        Some(id) => with_header(signed, text_header("chatgpt-account-id"@, id)),
        None => signed,
    };
    if header_place(owned, "openai-beta"@) < owned.len() {
        owned
    } else {
        owned.push(text_header("openai-beta"@, "responses_websockets=2026-02-06"@))
    }
}

fn find_header(headers: &Vec<Header>, name: &str) -> (r: usize)
    ensures
        r == header_place(header_views(headers@), name@),
        r <= headers.len(),
{
    let ghost all = header_views(headers@);
    let mut i: usize = 0;
    assert(all.skip(0) =~= all);
    while i < headers.len()
        invariant
            i <= headers.len(),
            all == header_views(headers@),
            header_place(all, name@) == i + header_place(all.skip(i as int), name@),
        decreases headers.len() - i,
    {
        assert(all.skip(i as int).drop_first() =~= all.skip(i + 1));
        assert(all.skip(i as int)[0] == all[i as int]);
        if same(&headers[i].name, name) {
            return i;
        }
        i += 1;
    }
    i
}

fn insert_header(headers: &mut Vec<Header>, header: Header)
    ensures
        header_views(final(headers)@) == with_header(header_views(old(headers)@), header@),
{
    let ghost before = header_views(headers@);
    let at = find_header(headers, &header.name);
    let ghost v = header@;
    if at < headers.len() {
        headers.set(at, header);
        assert(header_views(headers@) =~= before.update(at as int, v));
    } else {
        headers.push(header);
        assert(header_views(headers@) =~= before.push(v));
    }
}

/// The headers of the handshake with the upstream.
pub fn handshake_headers(
    incoming: &Vec<Header>,
    access_token: &str,
    account_id: &Option<String>,
) -> (r: Vec<Header>)
    ensures
        header_views(r@) == upstream_handshake(
            header_views(incoming@),
            access_token@,
            account_id.deep_view(),
        ),
{
    let ghost all = header_views(incoming@);
    let mut out: Vec<Header> = Vec::new();
    let mut i: usize = 0;
    assert(header_views(out@) =~= Seq::empty());
    while i < incoming.len()
        invariant
            i <= incoming.len(),
            all == header_views(incoming@),
            header_views(out@) == passed_on(all, i as int),
        decreases incoming.len() - i,
    {
        let header = &incoming[i];
        assert(all[i as int] == header@);
        if should_forward_handshake_header(&header.name) {
            insert_header(
                &mut out,
                Header { name: header.name.clone(), value: copy_bytes(&header.value) },
            );
        }
        i += 1;
    }
    insert_header(&mut out, make_header("authorization", &concat("Bearer ", access_token)));
    if let Some(id) = account_id {
        insert_header(&mut out, make_header("chatgpt-account-id", id));
    }
    if find_header(&out, "openai-beta") == out.len() {
        let ghost before = header_views(out@);
        out.push(make_header("openai-beta", "responses_websockets=2026-02-06"));
        assert(header_views(out@) =~= before.push(
            text_header("openai-beta"@, "responses_websockets=2026-02-06"@),
        ));
    }
    out
}

/// The status of an event is the number under its status, or under its status code where it has no
/// status; a text of digits counts as the number that it writes.
pub proof fn statuses_are_numbers_of_events(v: JsonView, n: u64)
    ensures
        v.get("status"@) == Some(JsonView::Number(JsonNumber::PosInt(n))) ==> status_of(v) == Some(n),
        v.get("status"@) is None && v.get("status_code"@) == Some(
            JsonView::Number(JsonNumber::PosInt(n)),
        ) ==> status_of(v) == Some(n),
        v.get("status"@) == Some(JsonView::Str(decimal(n as int))) ==> status_of(v) == Some(n),
        v.get("status"@) is None && v.get("status_code"@) == Some(
            JsonView::Str(decimal(n as int)),
        ) ==> status_of(v) == Some(n),
        v.get("status"@) is None && v.get("status_code"@) is None ==> status_of(v) is None,
{
    decimals_read_back(n as int);
    assert(decimal(n as int).len() > 0 && decimal(n as int)[0] != '-') by {
        digit_comes_first(n as nat);
    }
}

proof fn digit_comes_first(n: nat)
    ensures
        digits(n).len() > 0,
        '0' <= digits(n)[0] <= '9',
    decreases n,
{
    if n >= 10 {
        digit_comes_first(n / 10);
    }
}

/// Every event whose status says that the account is refused, rate limited or failing asks the client
/// for a new connection; so does one that says that there are too many connections. No other does.
pub proof fn refusals_ask_for_a_new_connection(v: JsonView, n: u64)
    ensures
        status_of(v) == Some(n) && (n == 401 || n == 403 || n == 429 || (500 <= n && n <= 599))
            ==> retries(v),
        (v.get("status"@) == Some(JsonView::Number(JsonNumber::PosInt(n))) || (v.get(
            "status"@,
        ) is None && v.get("status_code"@) == Some(JsonView::Number(JsonNumber::PosInt(n)))))
            && (n == 401 || n == 403 || n == 429 || (500 <= n && n <= 599)) ==> retries(v),
        v.get("error"@) matches Some(error) && error.get("code"@) == Some(
            JsonView::Str("websocket_connection_limit_reached"@),
        ) ==> retries(v),
        status_of(v) == Some(n) && !(n == 401 || n == 403 || n == 429 || (500 <= n && n <= 599))
            && member2(v, "error"@, "code"@) is None ==> !retries(v),
        status_of(v) is None && member2(v, "error"@, "code"@) is None ==> !retries(v),
        status_of(v) is None && retries(v) ==> member2(v, "error"@, "code"@) == Some(
            JsonView::Str("websocket_connection_limit_reached"@),
        ),
{
}

/// An event for which the account is penalised also asks the client for a new connection, whatever is
/// said of the error.
pub proof fn penalties_ask_for_a_new_connection(
    v: JsonView,
    message: Option<Seq<char>>,
    cooldown: int,
)
    requires
        !(event_penalty(v, message, cooldown) is Nothing),
    ensures
        retries(v),
{
}

/// What an event does to its account, by its status: a refusal of the tokens fails the account, for
/// the reason that is given; a rate limit makes it wait as long as is configured; a failure of the
/// server makes it wait for ten seconds; anything else does nothing.
pub proof fn statuses_penalise_accounts(
    v: JsonView,
    n: u64,
    message: Option<Seq<char>>,
    cooldown: int,
)
    requires
        status_of(v) == Some(n),
    ensures
        n == 401 || n == 403 ==> event_penalty(v, message, cooldown) is AuthFailed
            && event_penalty(v, message, cooldown)->AuthFailed_reason == match message {
            Some(text) => text,
            None => "upstream WebSocket authentication failed"@,
        },
        n == 429 ==> event_penalty(v, message, cooldown) is Cooldown && event_penalty(
            v,
            message,
            cooldown,
        )->seconds == cooldown,
        500 <= n <= 599 ==> event_penalty(v, message, cooldown) is Cooldown && event_penalty(
            v,
            message,
            cooldown,
        )->seconds == 10,
        n < 401 || n == 402 || 404 <= n < 429 || 429 < n < 500 || n > 599 ==> event_penalty(
            v,
            message,
            cooldown,
        ) is Nothing,
{
}

/// An event without a status does nothing to its account.
pub proof fn no_status_no_penalty(v: JsonView, message: Option<Seq<char>>, cooldown: int)
    requires
        status_of(v) is None,
    ensures
        event_penalty(v, message, cooldown) is Nothing,
{
}

/// A connection that is refused fails its account where the tokens are why, makes it wait as long as is
/// configured where it is rate limited, and for ten seconds otherwise.
pub proof fn refused_connections_penalise_accounts(status: Option<u16>, cooldown: int)
    ensures
        status == Some(401u16) || status == Some(403u16) ==> connection_penalty(
            status,
            cooldown,
        ) is AuthFailed,
        status == Some(429u16) ==> connection_penalty(status, cooldown) is Cooldown
            && connection_penalty(status, cooldown)->seconds == cooldown,
        status != Some(401u16) && status != Some(403u16) && status != Some(429u16) ==> (
        connection_penalty(status, cooldown) is Cooldown && connection_penalty(
            status,
            cooldown,
        )->seconds == 10),
{
}

/// The events that end a response are those of the four types, and no other.
pub proof fn four_events_end_responses(v: JsonView, kind: Seq<char>)
    ensures
        v.get("type"@) == Some(JsonView::Str("response.completed"@)) ==> terminal_of(v) == Some(
            TerminalEvent::Completed,
        ),
        v.get("type"@) == Some(JsonView::Str("response.incomplete"@)) ==> terminal_of(v) == Some(
            TerminalEvent::Incomplete,
        ),
        v.get("type"@) == Some(JsonView::Str("response.failed"@)) ==> terminal_of(v) == Some(
            TerminalEvent::Failed,
        ),
        v.get("type"@) == Some(JsonView::Str("error"@)) ==> terminal_of(v) == Some(
            TerminalEvent::Error,
        ),
        v.get("type"@) is None ==> terminal_of(v) is None,
        v.get("type"@) == Some(JsonView::Str(kind)) && kind != "response.completed"@ && kind
            != "response.incomplete"@ && kind != "response.failed"@ && kind != "error"@
            ==> terminal_of(v) is None,
        v.get("type"@) matches Some(t) && !(t is Str) ==> terminal_of(v) is None,
{
    reveal_strlit("response.completed");
    reveal_strlit("response.incomplete");
    reveal_strlit("response.failed");
    reveal_strlit("error");
    assert("response.completed"@.len() == 18);
    assert("response.incomplete"@.len() == 19);
    assert("response.failed"@.len() == 15);
    assert("error"@.len() == 5);
}

/// What is recorded of a response that an event ends: it succeeded only where it was completed, and
/// then it costs the account nothing; what went wrong, the response it was and why are those that the
/// event names.
pub proof fn responses_are_recorded_as_they_end(v: JsonView, cooldown: int, text: Seq<char>)
    ensures
        turn_end(v, cooldown).status == "success"@ <==> terminal_of(v) == Some(
            TerminalEvent::Completed,
        ),
        turn_end(v, cooldown).status == "error"@ <==> terminal_of(v) != Some(
            TerminalEvent::Completed,
        ),
        terminal_of(v) == Some(TerminalEvent::Completed) ==> turn_end(
            v,
            cooldown,
        ).penalty is Nothing,
        terminal_of(v) != Some(TerminalEvent::Completed) ==> turn_end(v, cooldown).penalty
            == event_penalty(v, turn_end(v, cooldown).error_message, cooldown),
        member2(v, "error"@, "message"@) == Some(JsonView::Str(text)) ==> turn_end(
            v,
            cooldown,
        ).error_message == Some(text),
        member2(v, "error"@, "message"@) is None && v.get("message"@) == Some(JsonView::Str(text))
            ==> turn_end(v, cooldown).error_message == Some(text),
        member2(v, "error"@, "code"@) == Some(JsonView::Str(text)) ==> turn_end(
            v,
            cooldown,
        ).error_code == Some(text),
        member2(v, "error"@, "code"@) is None && member2(v, "error"@, "type"@) == Some(
            JsonView::Str(text),
        ) ==> turn_end(v, cooldown).error_code == Some(text),
        member2(v, "response"@, "id"@) == Some(JsonView::Str(text)) ==> turn_end(
            v,
            cooldown,
        ).response_id == Some(text),
        member2(v, "response"@, "id"@) is None && v.get("id"@) == Some(JsonView::Str(text))
            ==> turn_end(v, cooldown).response_id == Some(text),
        member2(v, "response"@, "id"@) is None && v.get("id"@) is None ==> turn_end(
            v,
            cooldown,
        ).response_id is None,
        v.get("error"@) is None ==> turn_end(v, cooldown).error_code == match terminal_of(v) {
            Some(TerminalEvent::Completed) => None,
            Some(TerminalEvent::Incomplete) => Some("response_incomplete"@),
            Some(TerminalEvent::Failed) => Some("response_failed"@),
            _ => Some("upstream_error"@),
        },
{
    reveal_strlit("success");
    reveal_strlit("error");
    assert("success"@.len() == 7);
    assert("error"@.len() == 5);
}

/// A request that is cut off is an error of its own name, says why, and costs the account nothing.
pub proof fn cut_off_requests_are_errors(message: Seq<char>)
    ensures
        cut_off(message).status == "error"@,
        cut_off(message).error_code == Some("websocket_disconnected"@),
        cut_off(message).error_message == Some(message),
        cut_off(message).response_id is None,
        cut_off(message).penalty is Nothing,
        cut_off(message).usage.input is None,
        cut_off(message).usage.output is None,
{
}

/// A message is a request for a response exactly where its type says so; the request is named by the
/// turn, else by the request's own name, else by its start, where that is more than white space.
pub proof fn requests_are_named_by_their_client(v: JsonView, text: Seq<char>)
    ensures
        v.get("type"@) == Some(JsonView::Str("response.create"@)) <==> asks_response(Some(v)),
        !asks_response(None),
        member2(v, "client_metadata"@, "turn_id"@) == Some(JsonView::Str(text)) && trimmed(
            text,
        ).len() > 0 ==> client_request_id(v) == Some(text),
        member2(v, "client_metadata"@, "turn_id"@) is None && member2(
            v,
            "client_metadata"@,
            "request_id"@,
        ) == Some(JsonView::Str(text)) && trimmed(text).len() > 0 ==> client_request_id(v) == Some(
            text,
        ),
        v.get("client_metadata"@) is None ==> client_request_id(v) is None,
        client_request_id(v) matches Some(id) ==> trimmed(id).len() > 0,
{
}

/// A connection belongs to the session that its client names, else to the thread; a name of a session
/// comes first, and without either there is none.
pub proof fn connections_belong_to_the_named_session(headers: Seq<HeaderView>, text: Seq<char>)
    ensures
        alias(header_text(headers, "session-id"@)) == Some(text) ==> socket_alias(headers) == Some(
            route_key("session_id"@, text),
        ),
        alias(header_text(headers, "session-id"@)) is None && alias(
            header_text(headers, "x-session-id"@),
        ) == Some(text) ==> socket_alias(headers) == Some(route_key("session_id"@, text)),
        alias(header_text(headers, "session-id"@)) is None && alias(
            header_text(headers, "x-session-id"@),
        ) is None && alias(header_text(headers, "x-codex-session-id"@)) == Some(text)
            ==> socket_alias(headers) == Some(route_key("session_id"@, text)),
        alias(header_text(headers, "session-id"@)) is None && alias(
            header_text(headers, "x-session-id"@),
        ) is None && alias(header_text(headers, "x-codex-session-id"@)) is None ==> {
            &&& alias(header_text(headers, "thread-id"@)) == Some(text) ==> socket_alias(headers)
                == Some(route_key("thread_id"@, text))
            &&& alias(header_text(headers, "thread-id"@)) is None && alias(
                header_text(headers, "x-client-request-id"@),
            ) == Some(text) ==> socket_alias(headers) == Some(route_key("thread_id"@, text))
            &&& alias(header_text(headers, "thread-id"@)) is None && alias(
                header_text(headers, "x-client-request-id"@),
            ) is None ==> socket_alias(headers) is None
        },
{
}

proof fn place_is_first(headers: Seq<HeaderView>, name: Seq<char>)
    ensures
        0 <= header_place(headers, name) <= headers.len(),
        header_place(headers, name) < headers.len() ==> headers[header_place(headers, name)].name
            == name,
        forall|k: int|
            0 <= k < header_place(headers, name) ==> (#[trigger] headers[k]).name != name,
    decreases headers.len(),
{
    if headers.len() > 0 && headers[0].name != name {
        let rest = headers.drop_first();
        place_is_first(rest, name);
        assert forall|k: int| 0 <= k < header_place(headers, name) implies (
        #[trigger] headers[k]).name != name by {
            if k > 0 {
                assert(rest[k - 1] == headers[k]);
            }
        }
    }
}

proof fn header_is_set(headers: Seq<HeaderView>, header: HeaderView, other: HeaderView)
    ensures
        with_header(headers, header).contains(header),
        headers.contains(other) && other.name != header.name ==> with_header(
            headers,
            header,
        ).contains(other),
        with_header(headers, header).contains(other) ==> other == header || headers.contains(other),
{
    place_is_first(headers, header.name);
    let at = header_place(headers, header.name);
    let r = with_header(headers, header);
    if at < headers.len() {
        assert(r[at] == header);
    } else {
        assert(r[headers.len() as int] == header);
    }
    if headers.contains(other) && other.name != header.name {
        let k = headers.index_of(other);
        assert(r[k] == other);
    }
    if r.contains(other) {
        let k = r.index_of(other);
        if other != header {
            assert(headers[k] == other);
        }
    }
}

/// The handshake with the upstream is signed with the token of the account, and says which account it
/// is for where that is known.
pub proof fn handshakes_are_signed(
    incoming: Seq<HeaderView>,
    token: Seq<char>,
    account: Option<Seq<char>>,
)
    ensures
        upstream_handshake(incoming, token, account).contains(
            text_header("authorization"@, "Bearer "@ + token),
        ),
        account matches Some(id) ==> upstream_handshake(incoming, token, account).contains(
            text_header("chatgpt-account-id"@, id),
        ),
{
    reveal_strlit("authorization");
    reveal_strlit("chatgpt-account-id");
    assert("authorization"@.len() == 13);
    assert("chatgpt-account-id"@.len() == 18);
    let passed = passed_on(incoming, incoming.len() as int);
    let auth = text_header("authorization"@, "Bearer "@ + token);
    let signed = with_header(passed, auth);
    header_is_set(passed, auth, auth);
    let owned = match account {
        Some(id) => with_header(signed, text_header("chatgpt-account-id"@, id)),
        None => signed,
    };
    if let Some(id) = account {
        header_is_set(signed, text_header("chatgpt-account-id"@, id), auth);
    }
    let r = upstream_handshake(incoming, token, account);
    assert(owned.contains(auth));
    let k = owned.index_of(auth);
    assert(r[k] == auth);
    if let Some(id) = account {
        let own = text_header("chatgpt-account-id"@, id);
        assert(owned.contains(own));
        let j = owned.index_of(own);
        assert(r[j] == own);
    }
}

proof fn only_allowed_are_passed_on(incoming: Seq<HeaderView>, n: int, h: HeaderView)
    requires
        0 <= n <= incoming.len(),
        passed_on(incoming, n).contains(h),
    ensures
        forwards_handshake_header(h.name),
        incoming.contains(h),
    decreases n,
{
    if n > 0 {
        let last = incoming[n - 1];
        if forwards_handshake_header(last.name) {
            header_is_set(passed_on(incoming, n - 1), last, h);
            if h == last {
                assert(incoming[n - 1] == h);
            } else {
                only_allowed_are_passed_on(incoming, n - 1, h);
            }
        } else {
            only_allowed_are_passed_on(incoming, n - 1, h);
        }
    }
}

/// Of the client's headers, only those that identify the client, the session and the trace reach the
/// upstream: no cookie, and no authorization of the client's own.
pub proof fn client_secrets_stay_here(
    incoming: Seq<HeaderView>,
    token: Seq<char>,
    account: Option<Seq<char>>,
    h: HeaderView,
)
    requires
        upstream_handshake(incoming, token, account).contains(h),
    ensures
        h.name == "authorization"@ ==> h == text_header("authorization"@, "Bearer "@ + token),
        h.name != "cookie"@,
{
    reveal_strlit("authorization");
    reveal_strlit("chatgpt-account-id");
    reveal_strlit("openai-beta");
    reveal_strlit("cookie");
    reveal_strlit("user-agent");
    reveal_strlit("originator");
    reveal_strlit("accept-language");
    reveal_strlit("session-id");
    reveal_strlit("thread-id");
    reveal_strlit("x-session-id");
    reveal_strlit("x-client-request-id");
    reveal_strlit("traceparent");
    reveal_strlit("tracestate");
    reveal_strlit("x-codex-");
    reveal_strlit("x-openai-");
    reveal_strlit("x-stainless-");
    let passed = passed_on(incoming, incoming.len() as int);
    let auth = text_header("authorization"@, "Bearer "@ + token);
    let signed = with_header(passed, auth);
    let owned = match account {
        Some(id) => with_header(signed, text_header("chatgpt-account-id"@, id)),
        None => signed,
    };
    let beta = text_header("openai-beta"@, "responses_websockets=2026-02-06"@);
    let r = upstream_handshake(incoming, token, account);
    let k = r.index_of(h);
    assert("authorization"@[0] == 'a' && "cookie"@.len() == 6 && "openai-beta"@.len() == 11
        && "chatgpt-account-id"@.len() == 18 && "authorization"@.len() == 13);
    assert(h == beta || owned.contains(h)) by {
        if k < owned.len() {
            assert(owned[k] == h);
        }
    }
    if h != beta {
        if let Some(id) = account {
            header_is_set(signed, text_header("chatgpt-account-id"@, id), h);
        }
        if signed.contains(h) {
            header_is_set(passed, auth, h);
            if passed.contains(h) {
                only_allowed_are_passed_on(incoming, incoming.len() as int, h);
                assert(!forwards_handshake_header("cookie"@)) by {
                    assert("cookie"@.len() == 6);
                }
                assert(!forwards_handshake_header("authorization"@)) by {
                    assert("authorization"@.len() == 13);
                    assert("x-codex-"@[0] == 'x' && "x-openai-"@[0] == 'x' && "x-stainless-"@[0]
                        == 'x');
                    assert("authorization"@.take(8)[0] == 'a');
                    assert("authorization"@.take(9)[0] == 'a');
                    assert("authorization"@.take(12)[0] == 'a');
                }
            }
        }
    }
}

/// The headers of the client that reach the upstream, and those of the upstream that reach the client,
/// by their names.
pub proof fn handshake_headers_by_name(name: Seq<char>)
    ensures
        forwards_handshake_header(name) <==> name == "user-agent"@ || name == "originator"@ || name
            == "openai-beta"@ || name == "accept-language"@ || name == "session-id"@ || name
            == "thread-id"@ || name == "x-session-id"@ || name == "x-client-request-id"@ || name
            == "traceparent"@ || name == "tracestate"@ || starts_with(name, "x-codex-"@)
            || starts_with(name, "x-openai-"@) || starts_with(name, "x-stainless-"@),
        copies_handshake_header(name) <==> name == "x-reasoning-included"@ || name
            == "x-models-etag"@ || name == "openai-model"@ || name == "x-codex-turn-state"@,
{
}

/// A connection gives way where its session has moved, once no request is under way on it.
pub proof fn moved_connections_give_way_between_requests(signal: SessionRerouteSignal, turn: TurnView)
    ensures
        yields(Some(signal), None),
        !yields(Some(signal), Some(turn)),
        !yields(None, None),
        !yields(None, Some(turn)),
{
}

/// A connection is closed with a reason only where the service restarts.
pub proof fn only_restarts_are_told(stop: BridgeStop)
    ensures
        stop is Shutdown ==> (closing_of(stop) matches Some(c) && c.code == 1012 && c.reason
            == "service restart"@),
        !(stop is Shutdown) ==> closing_of(stop) is None,
{
}

/// A message ends a response where it is a text that is one of the ending events, and limits the rate
/// where such an event says so.
pub proof fn texts_end_responses(m: MessageView, v: JsonView)
    ensures
        message_json(m) == Some(v) && terminal_of(v) is Some ==> ending(m) == Some(v),
        message_json(m) == Some(v) && terminal_of(v) is None ==> ending(m) is None,
        message_json(m) is None ==> ending(m) is None,
        m matches MessageView::Text(text) ==> message_json(m) == json_of_text(text),
        m is Close ==> ending(m) is None,
        ending(m) == Some(v) && v.get("status"@) == Some(
            JsonView::Number(JsonNumber::PosInt(429)),
        ) ==> limits(m),
        ending(m) == Some(v) && status_of(v) != Some(429u64) ==> !limits(m),
        ending(m) is None ==> !limits(m),
{
}

/// Each way for a connection to stop says what happened to the request that was under way.
pub proof fn stops_say_what_happened()
    ensures
        BridgeStop::TurnTimeout.text()
            == "WebSocket request exceeded the configured request budget"@,
        BridgeStop::ClientClosed.text() == "Codex closed the WebSocket before a terminal response"@,
        BridgeStop::ClientIdle.text() == "Codex WebSocket idle timeout before a terminal response"@,
        BridgeStop::ClientReadFailed.text()
            == "Codex WebSocket read failed before a terminal response"@,
        BridgeStop::AccountingFailed.text() == "local request accounting failed"@,
        BridgeStop::UpstreamWriteFailed.text()
            == "upstream WebSocket write failed before a terminal response"@,
        BridgeStop::UpstreamWriteTimeout.text()
            == "upstream WebSocket write timeout before a terminal response"@,
        BridgeStop::UpstreamClosed.text()
            == "upstream WebSocket closed before a terminal response"@,
        BridgeStop::UpstreamIdle.text()
            == "upstream WebSocket idle timeout before a terminal response"@,
        BridgeStop::UpstreamReadFailed.text()
            == "upstream WebSocket read failed before a terminal response"@,
        BridgeStop::RetryRequested.text()
            == "upstream requested a retry on a new WebSocket connection"@,
        BridgeStop::ClientWriteFailed.text()
            == "Codex WebSocket write failed before a terminal response"@,
        BridgeStop::ClientWriteTimeout.text()
            == "Codex WebSocket write timeout before a terminal response"@,
        BridgeStop::Shutdown.text() == "service restart"@,
{
}

} // verus!
