//! Passing a request on: which accounts are tried, what each answer of the upstream leads to, and
//! what is recorded of a streamed response.
use vstd::prelude::*;
use crate::affinity::{contains_header, get_header, has_header, header_text};
use crate::capture::{
    DetectorView, SseTerminal, SseTerminalDetector, TailCapture, follows, last_of, observed,
};
use crate::encoding::{lossy_text, text_of_lossy_utf8};
use crate::error::{AppError, AppErrorKind};
use crate::ids::{fresh_uuid_text, is_fresh_id};
use crate::json::{Json, JsonView, json_of_bytes, members_are_first_entries, parse_bytes};
use crate::models::{UsageData, UsageView, clamp, clamped, no_usage};
use crate::text::{
    concat, contains, decimal, decimal_value, decimals_read_back, lower, occurs, occurs_at,
    parse_i64, same, starts_with, strip_prefix, take_chars, to_lower, trim, trimmed,
};
use crate::upstream::{
    Header, HeaderView, extract_usage_from_json, extract_usage_from_sse, header_views,
    response_id_from_sse, response_id_from_value, response_id_of, sse_response_id, sse_usage,
    with_value,
};

verus! {

/// How much of a streamed response is kept to read its end.
pub const SSE_CAPTURE_LIMIT: usize = 1048576;

/// How long a logged message can be, in characters.
pub const LOG_MESSAGE_LIMIT: usize = 2000;

/// How much of a failed response is read.
pub const ERROR_BODY_LIMIT: usize = 1048576;

/// How many accounts are tried: as many as are active and the setting allows, at least one.
pub open spec fn attempts_of(active: int, setting: int) -> int {
    let allowed = if setting < 1 {
        1
    } else {
        setting
    };
    if active <= 0 {
        1
    } else if active < allowed {
        active
    } else {
        allowed
    }
}

pub fn proxy_attempts(active_count: i64, max_attempts: usize) -> (r: usize)
    ensures
        r == attempts_of(active_count as int, max_attempts as int),
        r >= 1,
{
    let allowed: usize = if max_attempts < 1 { 1 } else { max_attempts };
    if active_count <= 0 {
        1
    } else if (active_count as u128) < allowed as u128 {
        active_count as usize
    } else {
        allowed
    }
}

pub open spec fn is_auth(status: u16) -> bool {
    status == 401 || status == 403
}

pub fn is_auth_status(status: u16) -> (r: bool)
    ensures
        r == is_auth(status),
{
    status == 401 || status == 403
}

/// How long an account rests after it was rate limited: what the answer says, else the setting, from
/// a second to an hour.
pub open spec fn rest_seconds(retry_after: Option<Seq<char>>, fallback: int) -> int {
    let said = match retry_after {
        Some(text) => match decimal_value(text) {
            Some(n) => if i64::MIN <= n <= i64::MAX {
                n
            } else {
                fallback
            },
            None => fallback,
        },
        None => fallback,
    };
    clamped(said, 1, 3600)
}

pub fn retry_after_seconds(retry_after: &Option<String>, fallback: i64) -> (r: i64)
    ensures
        r == rest_seconds(retry_after.deep_view(), fallback as int),
        1 <= r <= 3600,
{
    let said: i64 = match retry_after {
        Some(text) => match parse_i64(text) {
            Some(n) => n,
            None => fallback,
        },
        None => fallback,
    };
    clamp(said, 1, 3600)
}

/// What is done to an account because of an answer.
#[derive(Debug)]
pub enum Penalty {
    Nothing,
    Cooldown { seconds: i64, reason: &'static str },
    AuthFailed { reason: String },
}

pub enum PenaltyView {
    Nothing,
    Cooldown { seconds: int, reason: Seq<char> },
    AuthFailed { reason: Seq<char> },
}

impl View for Penalty {
    type V = PenaltyView;

    open spec fn view(&self) -> PenaltyView {
        match self {
            Penalty::Nothing => PenaltyView::Nothing,
            Penalty::Cooldown { seconds, reason } => PenaltyView::Cooldown {
                seconds: *seconds as int,
                reason: reason@,
            },
            Penalty::AuthFailed { reason } => PenaltyView::AuthFailed { reason: reason@ },
        }
    }
}

/// What comes after an answer.
#[derive(Debug, Clone, Copy, PartialEq, Eq, Structural)]
pub enum Next {
    /// The response is streamed to the client.
    Stream,
    /// The response is given to the client as it is.
    Return,
    /// Another account is tried; the response is kept for the case that none does better.
    TryAnother,
}

/// What an answer of the upstream leads to.
#[derive(Debug)]
pub struct Verdict {
    pub penalty: Penalty,
    /// Under which code the request is logged as failed; `None` where it is not.
    pub log_code: Option<&'static str>,
    /// What is reported where no account does better.
    pub error: Option<String>,
    pub next: Next,
}

pub struct VerdictView {
    pub penalty: PenaltyView,
    pub log_code: Option<Seq<char>>,
    pub error: Option<Seq<char>>,
    pub next: Next,
}

impl View for Verdict {
    type V = VerdictView;

    open spec fn view(&self) -> VerdictView {
        VerdictView {
            penalty: self.penalty@,
            log_code: crate::json::opt_text(self.log_code),
            error: self.error.deep_view(),
            next: self.next,
        }
    }
}

/// What the answer to a request for a response leads to.
pub open spec fn verdict_on(
    status: u16,
    message: Seq<char>,
    retry_after: Option<Seq<char>>,
    cooldown: int,
) -> VerdictView {
    if is_auth(status) {
        VerdictView {
            penalty: PenaltyView::AuthFailed { reason: message },
            log_code: Some("auth_failed"@),
            error: Some("selected account auth failed"@),
            next: Next::TryAnother,
        }
    } else if status == 429 {
        VerdictView {
            penalty: PenaltyView::Cooldown {
                seconds: rest_seconds(retry_after, cooldown),
                reason: "upstream rate limited"@,
            },
            log_code: Some("rate_limited"@),
            error: Some("all selected accounts were rate limited"@),
            next: Next::TryAnother,
        }
    } else if 500 <= status <= 599 {
        VerdictView {
            penalty: PenaltyView::Cooldown { seconds: 10, reason: "transient upstream error"@ },
            log_code: Some("upstream_server_error"@),
            error: Some(message),
            next: Next::TryAnother,
        }
    } else if !(200 <= status <= 299) {
        VerdictView {
            penalty: PenaltyView::Nothing,
            log_code: Some("upstream_error"@),
            error: None,
            next: Next::Return,
        }
    } else {
        VerdictView {
            penalty: PenaltyView::Nothing,
            log_code: None,
            error: None,
            next: Next::Stream,
        }
    }
}

/// Judges the answer to a request for a response, after a refresh of the tokens where its first
/// answer was one of authorization.
pub fn judge_response(
    status: u16,
    message: &str,
    retry_after: &Option<String>,
    cooldown_seconds: i64,
) -> (r: Verdict)
    ensures
        r@ == verdict_on(status, message@, retry_after.deep_view(), cooldown_seconds as int),
{
    if is_auth_status(status) {
        Verdict {
            penalty: Penalty::AuthFailed { reason: message.to_owned() },
            log_code: Some("auth_failed"),
            error: Some("selected account auth failed".to_owned()),
            next: Next::TryAnother,
        }
    } else if status == 429 {
        Verdict {
            penalty: Penalty::Cooldown {
                seconds: retry_after_seconds(retry_after, cooldown_seconds),
                reason: "upstream rate limited",
            },
            log_code: Some("rate_limited"),
            error: Some("all selected accounts were rate limited".to_owned()),
            next: Next::TryAnother,
        }
    } else if 500 <= status && status <= 599 {
        Verdict {
            penalty: Penalty::Cooldown { seconds: 10, reason: "transient upstream error" },
            log_code: Some("upstream_server_error"),
            error: Some(message.to_owned()),
            next: Next::TryAnother,
        }
    } else if !(200 <= status && status <= 299) {
        Verdict {
            penalty: Penalty::Nothing,
            log_code: Some("upstream_error"),
            error: None,
            next: Next::Return,
        }
    } else {
        Verdict { penalty: Penalty::Nothing, log_code: None, error: None, next: Next::Stream }
    }
}

/// What a request that could not be sent leads to: the account rests, another is tried.
pub fn judge_send_failure(message: &str, retried: bool) -> (r: Verdict)
    ensures
        r@ == (VerdictView {
            penalty: PenaltyView::Cooldown {
                seconds: 10,
                reason: if retried {
                    "upstream retry failed"@
                } else {
                    "upstream request failed"@
                },
            },
            log_code: Some(
                if retried {
                    "upstream_retry_failed"@
                } else {
                    "upstream_request_failed"@
                },
            ),
            error: Some(message@),
            next: Next::TryAnother,
        }),
        r@ == send_failure(message@, retried, false),
{
    if retried {
        Verdict {
            penalty: Penalty::Cooldown { seconds: 10, reason: "upstream retry failed" },
            log_code: Some("upstream_retry_failed"),
            error: Some(message.to_owned()),
            next: Next::TryAnother,
        }
    } else {
        Verdict {
            penalty: Penalty::Cooldown { seconds: 10, reason: "upstream request failed" },
            log_code: Some("upstream_request_failed"),
            error: Some(message.to_owned()),
            next: Next::TryAnother,
        }
    }
}

pub open spec fn refresh_failure_text(error: Seq<char>, answer: Seq<char>) -> Seq<char> {
    "token refresh failed: "@ + error + "; upstream: "@ + answer
}

/// What tokens that could not be refreshed after an answer of authorization lead to: the account is
/// marked, another is tried, and the answer is kept.
pub fn judge_refresh_failure(error: &str, answer: &str) -> (r: Verdict)
    ensures
        r@ == (VerdictView {
            penalty: PenaltyView::AuthFailed { reason: refresh_failure_text(error@, answer@) },
            log_code: Some("auth_refresh_failed"@),
            error: Some(refresh_failure_text(error@, answer@)),
            next: Next::TryAnother,
        }),
        r@ == refresh_failure(error@, answer@, false),
{
    let start = concat("token refresh failed: ", error);
    let middle = concat(&start, "; upstream: ");
    let message = concat(&middle, answer);
    Verdict {
        penalty: Penalty::AuthFailed { reason: message.clone() },
        log_code: Some("auth_refresh_failed"),
        error: Some(message),
        next: Next::TryAnother,
    }
}

/// What the answer to a request for the list of models leads to; such requests are not logged.
pub open spec fn models_verdict_on(
    status: u16,
    status_text: Seq<char>,
    message: Seq<char>,
    cooldown: int,
) -> VerdictView {
    if is_auth(status) || status == 429 || 500 <= status <= 599 {
        VerdictView {
            penalty: if is_auth(status) {
                PenaltyView::AuthFailed { reason: message }
            } else {
                PenaltyView::Cooldown {
                    seconds: if status == 429 {
                        cooldown
                    } else {
                        10
                    },
                    reason: "models request failed"@,
                }
            },
            log_code: None,
            error: Some("upstream models request returned "@ + status_text),
            next: Next::TryAnother,
        }
    } else {
        VerdictView {
            penalty: PenaltyView::Nothing,
            log_code: None,
            error: None,
            next: Next::Stream,
        }
    }
}

/// Judges the answer to a request for the list of models.
pub fn judge_models_response(
    status: u16,
    status_text: &str,
    message: &str,
    cooldown_seconds: i64,
) -> (r: Verdict)
    ensures
        r@ == models_verdict_on(status, status_text@, message@, cooldown_seconds as int),
{
    let auth = is_auth_status(status);
    if auth || status == 429 || (500 <= status && status <= 599) {
        let penalty = if auth {
            Penalty::AuthFailed { reason: message.to_owned() }
        } else {
            Penalty::Cooldown {
                seconds: if status == 429 {
                    cooldown_seconds
                } else {
                    10
                },
                reason: "models request failed",
            }
        };
        Verdict {
            penalty,
            log_code: None,
            error: Some(concat("upstream models request returned ", status_text)),
            next: Next::TryAnother,
        }
    } else {
        Verdict { penalty: Penalty::Nothing, log_code: None, error: None, next: Next::Stream }
    }
}

/// What a models request that could not be sent leads to. A first failure makes the account rest.
pub fn judge_models_send_failure(message: &str, retried: bool) -> (r: Verdict)
    ensures
        r@ == (VerdictView {
            penalty: if retried {
                PenaltyView::Nothing
            } else {
                PenaltyView::Cooldown { seconds: 10, reason: "models request failed"@ }
            },
            log_code: None,
            error: Some(message@),
            next: Next::TryAnother,
        }),
        r@ == send_failure(message@, retried, true),
{
    let penalty = if retried {
        Penalty::Nothing
    } else {
        Penalty::Cooldown { seconds: 10, reason: "models request failed" }
    };
    Verdict { penalty, log_code: None, error: Some(message.to_owned()), next: Next::TryAnother }
}

/// What tokens that could not be refreshed for a models request lead to.
pub fn judge_models_refresh_failure(error: &str) -> (r: Verdict)
    ensures
        ({
            let text = "model-list token refresh failed: "@ + error@;
            r@ == (VerdictView {
                penalty: PenaltyView::AuthFailed { reason: text },
                log_code: None,
                error: Some(text),
                next: Next::TryAnother,
            })
        }),
        r@ == refresh_failure(error@, Seq::empty(), true),
{
    let message = concat("model-list token refresh failed: ", error);
    Verdict {
        penalty: Penalty::AuthFailed { reason: message.clone() },
        log_code: None,
        error: Some(message),
        next: Next::TryAnother,
    }
}

/// Where an attempt with one account stands.
#[derive(Debug, Clone, Copy, PartialEq, Eq, Structural)]
pub enum Phase {
    /// The request is sent for the first time.
    Send,
    /// The upstream answered that the tokens are not valid; they are being refreshed.
    Refresh,
    /// The request is sent again with the new tokens.
    Resend,
}

/// What happened in an attempt.
#[derive(Debug)]
pub enum AttemptEvent {
    Answered { status: u16 },
    SendFailed { message: String },
    Refreshed,
    RefreshFailed { error: String },
}

/// What is to be done next in an attempt.
#[derive(Debug)]
pub enum AttemptStep {
    /// Go on with the given phase.
    Go(Phase),
    /// Read the answer and judge it.
    Judge,
    /// The attempt has failed.
    Fail(Verdict),
}

pub enum StepView {
    Go(Phase),
    Judge,
    Fail(VerdictView),
}

impl View for AttemptStep {
    type V = StepView;

    open spec fn view(&self) -> StepView {
        match self {
            AttemptStep::Go(phase) => StepView::Go(*phase),
            AttemptStep::Judge => StepView::Judge,
            AttemptStep::Fail(verdict) => StepView::Fail(verdict@),
        }
    }
}

/// Whether an event can happen in a phase.
pub open spec fn expected(phase: Phase, event: AttemptEvent) -> bool {
    match event {
        AttemptEvent::Answered { .. } => phase != Phase::Refresh,
        AttemptEvent::SendFailed { .. } => phase != Phase::Refresh,
        AttemptEvent::Refreshed => phase == Phase::Refresh,
        AttemptEvent::RefreshFailed { .. } => phase == Phase::Refresh,
    }
}

pub open spec fn send_failure(message: Seq<char>, retried: bool, models: bool) -> VerdictView {
    if models {
        VerdictView {
            penalty: if retried {
                PenaltyView::Nothing
            } else {
                PenaltyView::Cooldown { seconds: 10, reason: "models request failed"@ }
            },
            log_code: None,
            error: Some(message),
            next: Next::TryAnother,
        }
    } else {
        VerdictView {
            penalty: PenaltyView::Cooldown {
                seconds: 10,
                reason: if retried {
                    "upstream retry failed"@
                } else {
                    "upstream request failed"@
                },
            },
            log_code: Some(
                if retried {
                    "upstream_retry_failed"@
                } else {
                    "upstream_request_failed"@
                },
            ),
            error: Some(message),
            next: Next::TryAnother,
        }
    }
}

pub open spec fn refresh_failure(error: Seq<char>, answer: Seq<char>, models: bool) -> VerdictView {
    let text = if models {
        "model-list token refresh failed: "@ + error
    } else {
        refresh_failure_text(error, answer)
    };
    VerdictView {
        penalty: PenaltyView::AuthFailed { reason: text },
        log_code: if models {
            None
        } else {
            Some("auth_refresh_failed"@)
        },
        error: Some(text),
        next: Next::TryAnother,
    }
}

/// What follows an event of an attempt. `answer` is the message of the first answer.
pub open spec fn step_after(
    phase: Phase,
    event: AttemptEvent,
    answer: Seq<char>,
    models: bool,
) -> StepView {
    match event {
        AttemptEvent::Answered { status } => if phase == Phase::Send && is_auth(status) {
            StepView::Go(Phase::Refresh)
        } else {
            StepView::Judge
        },
        AttemptEvent::SendFailed { message } => StepView::Fail(
            send_failure(message@, phase == Phase::Resend, models),
        ),
        AttemptEvent::Refreshed => StepView::Go(Phase::Resend),
        AttemptEvent::RefreshFailed { error } => StepView::Fail(
            refresh_failure(error@, answer, models),
        ),
    }
}

/// Takes an attempt with one account a step further.
pub fn attempt_step(phase: Phase, event: AttemptEvent, answer: &str, models: bool) -> (r: AttemptStep)
    requires
        expected(phase, event),
    ensures
        r@ == step_after(phase, event, answer@, models),
{
    match event {
        AttemptEvent::Answered { status } => if phase == Phase::Send && is_auth_status(status) {
            AttemptStep::Go(Phase::Refresh)
        } else {
            AttemptStep::Judge
        },
        AttemptEvent::SendFailed { message } => {
            let retried = phase == Phase::Resend;
            if models {
                AttemptStep::Fail(judge_models_send_failure(&message, retried))
            } else {
                AttemptStep::Fail(judge_send_failure(&message, retried))
            }
        },
        AttemptEvent::Refreshed => AttemptStep::Go(Phase::Resend),
        AttemptEvent::RefreshFailed { error } => if models {
            AttemptStep::Fail(judge_models_refresh_failure(&error))
        } else {
            AttemptStep::Fail(judge_refresh_failure(&error, answer))
        },
    }
}

pub open spec fn phases_left(phase: Phase) -> nat {
    match phase {
        Phase::Send => 2,
        Phase::Refresh => 1,
        Phase::Resend => 0,
    }
}

/// An attempt never goes back: the tokens are refreshed at most once, and the request is sent at
/// most twice with one account.
pub proof fn attempts_go_forward(phase: Phase, event: AttemptEvent, answer: Seq<char>, models: bool)
    requires
        expected(phase, event),
    ensures
        step_after(phase, event, answer, models) matches StepView::Go(next) ==> phases_left(next)
            < phases_left(phase),
{
}

/// A failed attempt is followed by another one, and only an answer that is neither a success nor the
/// account's fault is given to the client as it is.
pub proof fn failures_try_another_account(
    status: u16,
    message: Seq<char>,
    retry_after: Option<Seq<char>>,
    cooldown: int,
)
    ensures
        ({
            let v = verdict_on(status, message, retry_after, cooldown);
            &&& v.next == Next::Stream <==> 200 <= status <= 299
            &&& v.next == Next::TryAnother <==> is_auth(status) || status == 429 || 500 <= status
                <= 599
            &&& v.next == Next::TryAnother ==> v.penalty !is Nothing && v.error is Some
            &&& v.next != Next::TryAnother ==> v.penalty is Nothing
        }),
{
}

/// A request on its way through the accounts.
#[derive(Debug)]
pub struct ProxyRun {
    attempts: usize,
    started: usize,
    excluded: Vec<u128>,
    responded: bool,
    error: Option<AppError>,
}

pub struct RunView {
    /// How many accounts may be tried.
    pub attempts: int,
    /// How many were.
    pub started: int,
    /// Those that failed.
    pub excluded: Seq<u128>,
    /// Whether a response of one of them is kept.
    pub responded: bool,
    /// What is reported where none is kept.
    pub error: Option<(AppErrorKind, Seq<char>)>,
}

impl View for ProxyRun {
    type V = RunView;

    closed spec fn view(&self) -> RunView {
        RunView {
            attempts: self.attempts as int,
            started: self.started as int,
            excluded: self.excluded@,
            responded: self.responded,
            error: match self.error {
                Some(e) => Some(e@),
                None => None,
            },
        }
    }
}

impl RunView {
    /// No account is tried twice, and no more are tried than may be.
    pub open spec fn sound(self) -> bool {
        &&& self.excluded.no_duplicates()
        &&& self.excluded.len() <= self.started <= self.attempts
        &&& 1 <= self.attempts
    }

    /// The run with one attempt more, where one is left.
    pub open spec fn with_attempt(self) -> RunView {
        if self.started < self.attempts {
            RunView { started: self.started + 1, ..self }
        } else {
            self
        }
    }

    /// The run once no account could be selected after a failed attempt.
    pub open spec fn without_selection(self, error: (AppErrorKind, Seq<char>)) -> RunView {
        RunView {
            started: self.attempts,
            error: match self.error {
                Some(e) => Some(e),
                None => Some(error),
            },
            ..self
        }
    }

    /// The run once an account has failed.
    pub open spec fn with_failure(
        self,
        account_id: u128,
        keeps_response: bool,
        error: (AppErrorKind, Seq<char>),
    ) -> RunView {
        RunView {
            excluded: self.excluded.push(account_id),
            responded: self.responded || keeps_response,
            error: Some(error),
            ..self
        }
    }

    /// What is reported at the end of the run, where no response is kept.
    pub open spec fn report(self, nothing: Seq<char>) -> (AppErrorKind, Seq<char>) {
        match self.error {
            Some(error) => error,
            None => (AppErrorKind::Unavailable, nothing),
        }
    }
}

/// How a run that found no account ends.
#[derive(Debug)]
pub enum RunEnd {
    /// The response that was kept last is given to the client.
    KeptResponse,
    Failed(AppError),
}

impl ProxyRun {
    pub fn new(active_count: i64, max_attempts: usize) -> (r: ProxyRun)
        ensures
            r@ == (RunView {
                attempts: attempts_of(active_count as int, max_attempts as int),
                started: 0,
                excluded: Seq::empty(),
                responded: false,
                error: None,
            }),
            r@.sound(),
    {
        let r = ProxyRun {
            attempts: proxy_attempts(active_count, max_attempts),
            started: 0,
            excluded: Vec::new(),
            responded: false,
            error: None,
        };
        assert(r@.excluded =~= Seq::empty());
        r
    }

    /// The accounts that are not tried again.
    pub fn excluded(&self) -> (r: &Vec<u128>)
        ensures
            r@ == self@.excluded,
    {
        &self.excluded
    }

    /// Starts the next attempt; false where there is none left.
    pub fn next_attempt(&mut self) -> (r: bool)
        requires
            old(self)@.sound(),
        ensures
            final(self)@.sound(),
            r == (old(self)@.started < old(self)@.attempts),
            final(self)@ == if r {
                (RunView { started: old(self)@.started + 1, ..old(self)@ })
            } else {
                old(self)@
            },
            final(self)@ == old(self)@.with_attempt(),
    {
        if self.started < self.attempts {
            self.started = self.started + 1;
            true
        } else {
            false
        }
    }

    /// No account could be selected. The first time, this is the answer (`Some`); after a failed
    /// attempt it ends the run, and is reported only where nothing else is.
    pub fn selection_failed(&mut self, error: AppError) -> (r: Option<AppError>)
        requires
            old(self)@.sound(),
        ensures
            final(self)@.sound(),
            match r {
                Some(e) => old(self)@.excluded.len() == 0 && e@ == error@ && final(self)@ == old(
                    self,
                )@,
                None => old(self)@.excluded.len() > 0 && final(self)@ == (RunView {
                    started: old(self)@.attempts,
                    error: match old(self)@.error {
                        Some(e) => Some(e),
                        None => Some(error@),
                    },
                    ..old(self)@
                }) && final(self)@ == old(self)@.without_selection(error@),
            },
    {
        if self.excluded.len() == 0 {
            return Some(error);
        }
        self.started = self.attempts;
        if self.error.is_none() {
            self.error = Some(error);
        }
        None
    }

    /// The account of the attempt failed: it is not tried again.
    pub fn attempt_failed(&mut self, account_id: u128, keeps_response: bool, error: AppError)
        requires
            old(self)@.sound(),
            old(self)@.excluded.len() < old(self)@.started,
            !old(self)@.excluded.contains(account_id),
        ensures
            final(self)@.sound(),
            final(self)@ == (RunView {
                excluded: old(self)@.excluded.push(account_id),
                responded: old(self)@.responded || keeps_response,
                error: Some(error@),
                ..old(self)@
            }),
            final(self)@ == old(self)@.with_failure(account_id, keeps_response, error@),
    {
        self.excluded.push(account_id);
        if keeps_response {
            self.responded = true;
        }
        self.error = Some(error);
    }

    /// What the client is given where no account could serve it.
    pub fn finish(self, nothing_text: &str) -> (r: RunEnd)
        ensures
            match r {
                RunEnd::KeptResponse => self@.responded,
                RunEnd::Failed(e) => !self@.responded && e@ == match self@.error {
                    Some(error) => error,
                    None => (AppErrorKind::Unavailable, nothing_text@),
                } && e@ == self@.report(nothing_text@),
            },
    {
        if self.responded {
            return RunEnd::KeptResponse;
        }
        match self.error {
            Some(error) => RunEnd::Failed(error),
            None => RunEnd::Failed(AppError::Unavailable(nothing_text.to_owned())),
        }
    }
}

/// A request is tried on at most as many accounts as are active (one where none is) and as the
/// setting allows, and on at least one.
pub proof fn attempts_are_limited(active: int, setting: int)
    ensures
        1 <= attempts_of(active, setting),
        active >= 1 ==> attempts_of(active, setting) <= active,
        setting >= 1 ==> attempts_of(active, setting) <= setting,
        active <= 0 ==> attempts_of(active, setting) == 1,
{
}

/// What the end of a response tells, as far as it was kept.
pub open spec fn captured_usage(kept: Seq<u8>, is_sse: bool) -> UsageView {
    if is_sse {
        sse_usage(lossy_text(kept))
    } else {
        match json_of_bytes(kept) {
            Some(v) => with_value(no_usage(), v),
            None => no_usage(),
        }
    }
}

pub open spec fn captured_response_id(kept: Seq<u8>, is_sse: bool) -> Option<Seq<char>> {
    if is_sse {
        sse_response_id(lossy_text(kept))
    } else {
        match json_of_bytes(kept) {
            Some(v) => response_id_of(v),
            None => None,
        }
    }
}

/// Whether what was kept is read as events: it is known to be, or looks like it.
pub open spec fn reads_as_sse(kept: Seq<u8>, assumed: bool) -> bool {
    assumed || starts_with(lossy_text(kept), "data:"@) || occurs(lossy_text(kept), "\ndata:"@)
}

/// The usage and the identifier that the end of a response tells.
pub fn capture_metadata(kept: &Vec<u8>, assume_sse: bool) -> (r: (UsageData, Option<String>))
    ensures
        r.0@ == captured_usage(kept@, reads_as_sse(kept@, assume_sse)),
        r.1.deep_view() == captured_response_id(kept@, reads_as_sse(kept@, assume_sse)),
{
    let text = text_of_lossy_utf8(kept);
    if assume_sse || strip_prefix(&text, "data:").is_some() || contains(&text, "\ndata:") {
        (extract_usage_from_sse(&text), response_id_from_sse(&text))
    } else {
        match parse_bytes(kept) {
            Some(value) => (extract_usage_from_json(&value), response_id_from_value(&value)),
            None => (UsageData::none(), None),
        }
    }
}

/// What is recorded of a request.
#[derive(Debug)]
pub struct RequestOutcome {
    pub status: &'static str,
    pub error_code: Option<&'static str>,
    pub error_message: Option<String>,
    pub usage: UsageData,
    pub response_id: Option<String>,
}

pub struct OutcomeView {
    pub status: Seq<char>,
    pub error_code: Option<Seq<char>>,
    pub error_message: Option<Seq<char>>,
    pub usage: UsageView,
    pub response_id: Option<Seq<char>>,
}

impl View for RequestOutcome {
    type V = OutcomeView;

    open spec fn view(&self) -> OutcomeView {
        OutcomeView {
            status: self.status@,
            error_code: crate::json::opt_text(self.error_code),
            error_message: self.error_message.deep_view(),
            usage: self.usage@,
            response_id: self.response_id.deep_view(),
        }
    }
}

impl RequestOutcome {
    /// A failed request.
    pub fn error(code: &'static str, message: &str) -> (r: RequestOutcome)
        ensures
            r@ == (OutcomeView {
                status: "error"@,
                error_code: Some(code@),
                error_message: Some(message@),
                usage: no_usage(),
                response_id: None,
            }),
    {
        RequestOutcome {
            status: "error",
            error_code: Some(code),
            error_message: Some(message.to_owned()),
            usage: UsageData::none(),
            response_id: None,
        }
    }
}

/// Under which code a response that ended so is logged; `None` is a success.
pub open spec fn terminal_code(t: SseTerminal) -> Option<Seq<char>> {
    match t {
        SseTerminal::Completed => None,
        SseTerminal::Incomplete => Some("response_incomplete"@),
        SseTerminal::Failed => Some("response_failed"@),
        SseTerminal::Error => Some("upstream_error"@),
    }
}

pub open spec fn ended_outcome(kept: Seq<u8>, t: SseTerminal) -> OutcomeView {
    OutcomeView {
        status: if t == SseTerminal::Completed {
            "success"@
        } else {
            "error"@
        },
        error_code: terminal_code(t),
        error_message: None,
        usage: captured_usage(kept, true),
        response_id: captured_response_id(kept, true),
    }
}

pub open spec fn stopped_outcome(
    kept: Seq<u8>,
    failure: Option<Seq<char>>,
    event_stream: bool,
) -> OutcomeView {
    let is_sse = reads_as_sse(kept, event_stream);
    OutcomeView {
        status: if failure is Some {
            "error"@
        } else {
            "success"@
        },
        error_code: if failure is Some {
            Some("upstream_stream_error"@)
        } else {
            None
        },
        error_message: failure,
        usage: captured_usage(kept, is_sse),
        response_id: captured_response_id(kept, is_sse),
    }
}

/// A response while it streams to the client.
pub struct ResponseStream {
    capture: TailCapture,
    detector: SseTerminalDetector,
    settled: bool,
}

pub struct StreamView {
    pub kept: Seq<u8>,
    pub detector: DetectorView,
    pub settled: bool,
}

impl View for ResponseStream {
    type V = StreamView;

    closed spec fn view(&self) -> StreamView {
        StreamView {
            kept: self.capture.kept(),
            detector: self.detector@,
            settled: self.settled,
        }
    }
}

impl ResponseStream {
    pub closed spec fn wf(&self) -> bool {
        self.capture.wf() && self.capture.limit() == SSE_CAPTURE_LIMIT
    }

    pub fn new() -> (r: ResponseStream)
        ensures
            r.wf(),
            r@.kept == Seq::<u8>::empty(),
            r@.detector.carry == Seq::<u8>::empty(),
            r@.detector.pending is None,
            !r@.settled,
    {
        ResponseStream {
            capture: TailCapture::new(SSE_CAPTURE_LIMIT),
            detector: SseTerminalDetector::new(),
            settled: false,
        }
    }

    /// More of the response has come. Once its last event is complete, it is settled, and what is
    /// to be recorded of it is given out.
    pub fn chunk(&mut self, bytes: &[u8]) -> (r: Option<RequestOutcome>)
        requires
            old(self).wf(),
        ensures
            final(self).wf(),
            final(self)@.kept == last_of(old(self)@.kept + bytes@, SSE_CAPTURE_LIMIT as nat),
            if old(self)@.settled {
                r is None && final(self)@.settled && final(self)@.detector == old(self)@.detector
            } else {
                exists|t: Option<SseTerminal>|
                    #[trigger] observed(old(self)@.detector, bytes@, t, final(self)@.detector)
                        && final(self)@.settled == (t is Some) && match (t, r) {
                        (Some(end), Some(outcome)) => outcome@ == ended_outcome(
                            final(self)@.kept,
                            end,
                        ),
                        (None, None) => true,
                        _ => false,
                    }
            },
    {
        self.capture.push(bytes);
        if self.settled {
            return None;
        }
        let terminal = self.detector.observe(bytes);
        match terminal {
            None => None,
            Some(end) => {
                self.settled = true;
                let kept = self.capture.to_vec();
                let (usage, response_id) = capture_metadata(&kept, true);
                let (status, error_code): (&'static str, Option<&'static str>) = match end {
                    SseTerminal::Completed => ("success", None),
                    SseTerminal::Incomplete => ("error", Some("response_incomplete")),
                    SseTerminal::Failed => ("error", Some("response_failed")),
                    SseTerminal::Error => ("error", Some("upstream_error")),
                };
                Some(RequestOutcome { status, error_code, error_message: None, usage, response_id })
            },
        }
    }

    /// The response has stopped. What is to be recorded of it is given out, unless that was done
    /// before.
    pub fn stopped(&mut self, failure: Option<String>, event_stream: bool) -> (r: Option<
        RequestOutcome,
    >)
        requires
            old(self).wf(),
        ensures
            final(self).wf(),
            final(self)@.settled,
            final(self)@.kept == old(self)@.kept,
            match r {
                None => old(self)@.settled,
                Some(outcome) => !old(self)@.settled && outcome@ == stopped_outcome(
                    old(self)@.kept,
                    failure.deep_view(),
                    event_stream,
                ),
            },
    {
        if self.settled {
            return None;
        }
        self.settled = true;
        let kept = self.capture.to_vec();
        let (usage, response_id) = capture_metadata(&kept, event_stream);
        let (status, error_code): (&'static str, Option<&'static str>) = if failure.is_some() {
            ("error", Some("upstream_stream_error"))
        } else {
            ("success", None)
        };
        Some(RequestOutcome { status, error_code, error_message: failure, usage, response_id })
    }
}

/// Headers of a response that are passed on to the client.
pub open spec fn forwards_response_header(name: Seq<char>) -> bool {
    ||| name == "content-type"@
    ||| name == "cache-control"@
    ||| name == "etag"@
    ||| name == "last-modified"@
    ||| name == "vary"@
    ||| name == "retry-after"@
    ||| name == "x-request-id"@
    ||| name == "openai-processing-ms"@
    ||| name == "x-ratelimit-limit-requests"@
    ||| name == "x-ratelimit-remaining-requests"@
    ||| name == "x-ratelimit-reset-requests"@
    ||| starts_with(name, "x-codex-"@)
}

pub fn should_forward_response_header(name: &str) -> (r: bool)
    ensures
        r == forwards_response_header(name@),
{
    same(name, "content-type") || same(name, "cache-control") || same(name, "etag") || same(
        name,
        "last-modified",
    ) || same(name, "vary") || same(name, "retry-after") || same(name, "x-request-id") || same(
        name,
        "openai-processing-ms",
    ) || same(name, "x-ratelimit-limit-requests") || same(name, "x-ratelimit-remaining-requests")
        || same(name, "x-ratelimit-reset-requests") || strip_prefix(name, "x-codex-").is_some()
}

/// The headers of a response, without those that are not passed on.
pub open spec fn forwarded_back(headers: Seq<HeaderView>, n: int) -> Seq<HeaderView>
    decreases n,
{
    if n <= 0 {
        Seq::empty()
    } else if forwards_response_header(headers[n - 1].name) {
        forwarded_back(headers, n - 1).push(headers[n - 1])
    } else {
        forwarded_back(headers, n - 1)
    }
}

pub fn forwarded_response_headers(headers: Vec<Header>) -> (r: Vec<Header>)
    ensures
        header_views(r@) == forwarded_back(header_views(headers@), headers@.len() as int),
{
    let ghost all = header_views(headers@);
    let mut rest = headers;
    let mut out: Vec<Header> = Vec::new();
    let ghost mut done: int = 0;
    assert(header_views(out@) =~= Seq::empty());
    assert(all.skip(0) =~= all);
    while rest.len() > 0
        invariant
            0 <= done <= all.len(),
            rest.len() == all.len() - done,
            header_views(rest@) == all.skip(done),
            header_views(out@) == forwarded_back(all, done),
        decreases rest.len(),
    {
        let ghost before = header_views(rest@);
        let header = rest.remove(0);
        proof {
            assert(header@ == before[0]);
            assert(header_views(rest@) =~= before.drop_first());
            assert(before.drop_first() =~= all.skip(done + 1));
        }
        if should_forward_response_header(&header.name) {
            let ghost kept = header_views(out@);
            out.push(header);
            assert(header_views(out@) =~= kept.push(header@));
        }
        proof {
            done = done + 1;
        }
    }
    out
}

/// Whether the type of a response says that it is a stream of events.
pub open spec fn says_event_stream(content_type: Option<Seq<char>>) -> bool {
    match content_type {
        Some(text) => occurs(lower(text), "text/event-stream"@),
        None => false,
    }
}

/// Whether a response is a stream of events.
pub fn is_event_stream(content_type: &Option<String>) -> (r: bool)
    ensures
        r == says_event_stream(content_type.deep_view()),
        r == match content_type.deep_view() {
            Some(text) => occurs(lower(text), "text/event-stream"@),
            None => false,
        },
{
    match content_type {
        Some(text) => contains(&to_lower(text), "text/event-stream"),
        None => false,
    }
}

/// Takes in more of a failed response, up to a limit; false once there is no room.
pub fn buffer_error_body(body: &mut Vec<u8>, chunk: &[u8]) -> (r: bool)
    requires
        old(body)@.len() <= ERROR_BODY_LIMIT,
    ensures
        r == (old(body)@.len() < ERROR_BODY_LIMIT),
        final(body)@.len() <= ERROR_BODY_LIMIT,
        final(body)@ == (old(body)@ + chunk@).take(
            if old(body)@.len() + chunk@.len() < ERROR_BODY_LIMIT {
                (old(body)@.len() + chunk@.len()) as int
            } else {
                ERROR_BODY_LIMIT as int
            },
        ),
{
    let ghost before = body@;
    let room: usize = ERROR_BODY_LIMIT - body.len();
    let taken: usize = if chunk.len() < room { chunk.len() } else { room };
    let mut i: usize = 0;
    assert(before =~= (before + chunk@).take(before.len() as int));
    while i < taken
        invariant
            i <= taken <= chunk.len(),
            taken <= room,
            before.len() + room == ERROR_BODY_LIMIT,
            body@ == (before + chunk@).take(before.len() + i),
        decreases taken - i,
    {
        body.push(chunk[i]);
        assert(body@ =~= (before + chunk@).take(before.len() + i + 1));
        i += 1;
    }
    room > 0
}

/// The start of a failed response as a text for logs.
pub fn body_message(body: &Vec<u8>) -> (r: String)
    ensures
        r@ == lossy_text(body@).take(
            if lossy_text(body@).len() < LOG_MESSAGE_LIMIT {
                lossy_text(body@).len() as int
            } else {
                LOG_MESSAGE_LIMIT as int
            },
        ),
{
    take_chars(&text_of_lossy_utf8(body), LOG_MESSAGE_LIMIT)
}

/// How long a request took, as far as it can be stored.
pub fn latency_ms(millis: u128) -> (r: i32)
    ensures
        r == if millis > i32::MAX {
            i32::MAX as int
        } else {
            millis as int
        },
{
    if millis > 2147483647 {
        2147483647
    } else {
        millis as i32
    }
}

/// Why a client is refused, where it is.
pub open spec fn proxy_refusal(expected: Option<Seq<char>>, headers: Seq<HeaderView>) -> Option<
    Seq<char>,
> {
    if has_header(headers, "origin"@) {
        Some("browser-origin proxy requests are not allowed"@)
    } else {
        match expected {
            None => None,
            Some(token) => if header_text(headers, "authorization"@) == Some("Bearer "@ + token) {
                None
            } else {
                Some("invalid proxy token"@)
            },
        }
    }
}

/// Refuses requests that a browser makes for another site, and those without the proxy's token where
/// it has one.
pub fn validate_proxy_auth(expected: &Option<String>, headers: &Vec<Header>) -> (r: Result<
    (),
    AppError,
>)
    ensures
        match r {
            Ok(_) => proxy_refusal(expected.deep_view(), header_views(headers@)) is None,
            Err(e) => e@.0 == AppErrorKind::Unauthorized && proxy_refusal(
                expected.deep_view(),
                header_views(headers@),
            ) == Some(e@.1),
        },
{
    if contains_header(headers, "origin") {
        return Err(
            AppError::Unauthorized("browser-origin proxy requests are not allowed".to_owned()),
        );
    }
    match expected {
        None => Ok(()),
        Some(token) => {
            let wanted = concat("Bearer ", token);
            let given = match get_header(headers, "authorization") {
                Some(text) => same(&text, &wanted),
                None => false,
            };
            if given {
                Ok(())
            } else {
                Err(AppError::Unauthorized("invalid proxy token".to_owned()))
            }
        },
    }
}

/// The identifier of a request: the client's own, else a new one.
pub fn request_id(headers: &Vec<Header>) -> (r: String)
    ensures
        match header_text(header_views(headers@), "x-request-id"@) {
            Some(text) => if trimmed(text).len() > 0 {
                r@ == text
            } else {
                is_fresh_id(r@)
            },
            None => is_fresh_id(r@),
        },
{
    if let Some(text) = get_header(headers, "x-request-id") {
        if !trim(&text).as_str().is_empty() {
            return text;
        }
    }
    fresh_uuid_text()
}

/// An entry of the list of models.
pub open spec fn model_entry(id: Seq<char>) -> JsonView {
    JsonView::Object(
        seq![
            ("id"@, JsonView::Str(id)),
            ("object"@, JsonView::Str("model"@)),
            ("owned_by"@, JsonView::Str("codex-lb-rs"@)),
        ],
    )
}

fn model_json(id: &str) -> (r: Json)
    ensures
        r@ == model_entry(id@),
{
    let mut entries: Vec<(String, Json)> = Vec::new();
    entries.push(("id".to_owned(), Json::of_text(id)));
    entries.push(("object".to_owned(), Json::of_text("model")));
    entries.push(("owned_by".to_owned(), Json::of_text("codex-lb-rs")));
    let r = Json::Object(entries);
    assert(r@->Object_0 =~= model_entry(id@)->Object_0);
    r
}

/// The list of models that is served under the plain API.
pub fn v1_models() -> (r: Json)
    ensures
        r@ == JsonView::Object(
            seq![
                ("object"@, JsonView::Str("list"@)),
                (
                    "data"@,
                    JsonView::Array(
                        seq![
                            model_entry("gpt-5.6-terra"@),
                            model_entry("gpt-5.6-sol"@),
                            model_entry("gpt-5.5"@),
                            model_entry("gpt-5.3-codex"@),
                            model_entry("gpt-5.1-codex-mini"@),
                        ],
                    ),
                ),
            ],
        ),
{
    let mut models: Vec<Json> = Vec::new();
    models.push(model_json("gpt-5.6-terra"));
    models.push(model_json("gpt-5.6-sol"));
    models.push(model_json("gpt-5.5"));
    models.push(model_json("gpt-5.3-codex"));
    models.push(model_json("gpt-5.1-codex-mini"));
    let data = Json::Array(models);
    let ghost list = seq![
        model_entry("gpt-5.6-terra"@),
        model_entry("gpt-5.6-sol"@),
        model_entry("gpt-5.5"@),
        model_entry("gpt-5.3-codex"@),
        model_entry("gpt-5.1-codex-mini"@),
    ];
    assert(data@->Array_0 =~= list);
    let mut entries: Vec<(String, Json)> = Vec::new();
    entries.push(("object".to_owned(), Json::of_text("list")));
    entries.push(("data".to_owned(), data));
    let r = Json::Object(entries);
    assert(r@->Object_0 =~= seq![
        ("object"@, JsonView::Str("list"@)),
        ("data"@, JsonView::Array(list)),
    ]);
    r
}

/// As many accounts are tried as the fewer of those that are active and those that the setting allows.
pub proof fn attempts_are_the_fewer(active: int, setting: int)
    requires
        active >= 1,
        setting >= 1,
    ensures
        active <= setting ==> attempts_of(active, setting) == active,
        setting <= active ==> attempts_of(active, setting) == setting,
{
}

/// What each status of an answer leads to: a refusal of the tokens fails the account for the reason
/// that the answer gives; a rate limit makes it rest for as long as the answer says; a failure of the
/// server for ten seconds. All of these go on with another account; what is left goes to the client.
pub proof fn answers_are_judged_by_status(
    status: u16,
    message: Seq<char>,
    retry_after: Option<Seq<char>>,
    cooldown: int,
)
    ensures
        ({
            let v = verdict_on(status, message, retry_after, cooldown);
            &&& status == 401 || status == 403 ==> v.penalty is AuthFailed
                && v.penalty->AuthFailed_reason == message && v.log_code == Some("auth_failed"@)
                && v.next is TryAnother
            &&& status == 429 ==> v.penalty is Cooldown && v.penalty->seconds == rest_seconds(
                retry_after,
                cooldown,
            ) && v.log_code == Some("rate_limited"@) && v.next is TryAnother
            &&& 500 <= status <= 599 ==> v.penalty is Cooldown && v.penalty->seconds == 10
                && v.log_code == Some("upstream_server_error"@) && v.error == Some(message)
                && v.next is TryAnother
            &&& 200 <= status <= 299 ==> v.penalty is Nothing && v.log_code is None && v.error is None
                && v.next is Stream
            &&& status < 200 || 300 <= status <= 400 || status == 402 || 404 <= status <= 428 || 430
                <= status <= 499 || status >= 600 ==> v.penalty is Nothing && v.log_code == Some(
                "upstream_error"@,
            ) && v.error is None && v.next is Return
        }),
{
}

/// A rate limited account rests for the seconds that the answer names, else for those that are
/// configured: one at least, an hour at most.
pub proof fn rests_are_bounded(seconds: int, text: Seq<char>, fallback: int)
    ensures
        1 <= rest_seconds(Some(text), fallback) <= 3600,
        1 <= rest_seconds(None, fallback) <= 3600,
        1 <= seconds <= 3600 ==> rest_seconds(Some(decimal(seconds)), fallback) == seconds,
        3600 < seconds <= i64::MAX ==> rest_seconds(Some(decimal(seconds)), fallback) == 3600,
        i64::MIN <= seconds < 1 ==> rest_seconds(Some(decimal(seconds)), fallback) == 1,
        decimal_value(text) is None && 1 <= fallback <= 3600 ==> rest_seconds(Some(text), fallback)
            == fallback,
        1 <= fallback <= 3600 ==> rest_seconds(None, fallback) == fallback,
{
    decimals_read_back(seconds);
}

/// A list of models is asked of another account for the same answers that a response is, with the same
/// penalties but for how long a rate limit lasts; whatever else comes back is the client's.
pub proof fn model_lists_are_judged_alike(
    status: u16,
    status_text: Seq<char>,
    message: Seq<char>,
    retry_after: Option<Seq<char>>,
    cooldown: int,
)
    ensures
        ({
            let m = models_verdict_on(status, status_text, message, cooldown);
            let v = verdict_on(status, message, retry_after, cooldown);
            &&& m.next is TryAnother <==> v.next is TryAnother
            &&& m.penalty is AuthFailed <==> v.penalty is AuthFailed
            &&& m.penalty is Cooldown <==> v.penalty is Cooldown
            &&& m.penalty is AuthFailed ==> m.penalty->AuthFailed_reason == message
            &&& status == 429 ==> m.penalty->seconds == cooldown
            &&& 500 <= status <= 599 ==> m.penalty->seconds == 10
            &&& m.next is TryAnother ==> m.error == Some(
                "upstream models request returned "@ + status_text,
            )
            &&& !(m.next is TryAnother) ==> m.next is Stream && m.error is None
            &&& m.log_code is None
        }),
{
}

/// One attempt: a first refusal of the tokens has them refreshed, new tokens have the request sent
/// again, and any other answer, or a second refusal, is judged. What cannot be sent or refreshed fails
/// the attempt.
pub proof fn refusals_refresh_tokens_once(status: u16, answer: Seq<char>, models: bool)
    ensures
        status == 401 || status == 403 ==> step_after(
            Phase::Send,
            AttemptEvent::Answered { status },
            answer,
            models,
        ) == StepView::Go(Phase::Refresh),
        status != 401 && status != 403 ==> step_after(
            Phase::Send,
            AttemptEvent::Answered { status },
            answer,
            models,
        ) == StepView::Judge,
        step_after(Phase::Resend, AttemptEvent::Answered { status }, answer, models)
            == StepView::Judge,
        step_after(Phase::Refresh, AttemptEvent::Refreshed, answer, models) == StepView::Go(
            Phase::Resend,
        ),
{
}

/// A request that cannot be sent makes the account rest for ten seconds, and tokens that cannot be
/// refreshed fail it, with what went wrong; another account is tried in either case.
pub proof fn failed_attempts_are_penalised(
    message: Seq<char>,
    answer: Seq<char>,
    retried: bool,
    models: bool,
)
    ensures
        ({
            let v = send_failure(message, retried, models);
            &&& v.next is TryAnother
            &&& v.error == Some(message)
            &&& !models || !retried ==> v.penalty is Cooldown && v.penalty->seconds == 10
            &&& models && retried ==> v.penalty is Nothing
            &&& !models && !retried ==> v.log_code == Some("upstream_request_failed"@)
            &&& !models && retried ==> v.log_code == Some("upstream_retry_failed"@)
            &&& models ==> v.log_code is None
        }),
        ({
            let v = refresh_failure(message, answer, models);
            &&& v.next is TryAnother
            &&& v.penalty is AuthFailed
            &&& v.error == Some(v.penalty->AuthFailed_reason)
            &&& !models ==> v.log_code == Some("auth_refresh_failed"@) && v.error == Some(
                "token refresh failed: "@ + message + "; upstream: "@ + answer,
            )
            &&& models ==> v.log_code is None && v.error == Some(
                "model-list token refresh failed: "@ + message,
            )
        }),
{
}

/// A run goes on until its attempts are used up: each attempt uses one, a failed account is not tried
/// again and what it reported last is what is reported, and once no account can be selected none is
/// left.
pub proof fn runs_use_up_their_attempts(
    run: RunView,
    account: u128,
    keeps: bool,
    error: (AppErrorKind, Seq<char>),
    nothing: Seq<char>,
)
    requires
        run.sound(),
    ensures
        run.started < run.attempts ==> run.with_attempt().started == run.started + 1,
        run.started >= run.attempts ==> run.with_attempt() == run,
        run.with_attempt().excluded == run.excluded,
        run.with_attempt().attempts == run.attempts,
        run.with_failure(account, keeps, error).excluded.contains(account),
        run.with_failure(account, keeps, error).excluded.len() == run.excluded.len() + 1,
        forall|a: u128|
            run.excluded.contains(a) ==> #[trigger] run.with_failure(
                account,
                keeps,
                error,
            ).excluded.contains(a),
        run.with_failure(account, keeps, error).started == run.started,
        run.with_failure(account, keeps, error).attempts == run.attempts,
        keeps ==> run.with_failure(account, keeps, error).responded,
        run.responded ==> run.with_failure(account, keeps, error).responded,
        !keeps && !run.responded ==> !run.with_failure(account, keeps, error).responded,
        run.with_failure(account, keeps, error).report(nothing) == error,
        run.without_selection(error).started == run.without_selection(error).attempts,
        run.without_selection(error).excluded == run.excluded,
        run.without_selection(error).responded == run.responded,
        run.error is None ==> run.without_selection(error).report(nothing) == error,
        run.error matches Some(e) ==> run.without_selection(error).report(nothing) == e,
        run.error is None ==> run.report(nothing) == (AppErrorKind::Unavailable, nothing),
{
    let failed = run.with_failure(account, keeps, error).excluded;
    assert(failed[run.excluded.len() as int] == account);
    assert forall|a: u128| run.excluded.contains(a) implies #[trigger] failed.contains(a) by {
        let k = run.excluded.index_of(a);
        assert(failed[k] == a);
    }
}

/// A response that ends is a success exactly where it was completed, and otherwise an error of the
/// name of its end; one that stops is a success exactly where nothing went wrong.
pub proof fn responses_end_as_they_do(
    kept: Seq<u8>,
    t: SseTerminal,
    failure: Option<Seq<char>>,
    event_stream: bool,
)
    ensures
        t is Completed ==> ended_outcome(kept, t).status == "success"@ && ended_outcome(
            kept,
            t,
        ).error_code is None,
        t is Incomplete ==> ended_outcome(kept, t).status == "error"@ && ended_outcome(
            kept,
            t,
        ).error_code == Some("response_incomplete"@),
        t is Failed ==> ended_outcome(kept, t).status == "error"@ && ended_outcome(
            kept,
            t,
        ).error_code == Some("response_failed"@),
        t is Error ==> ended_outcome(kept, t).status == "error"@ && ended_outcome(
            kept,
            t,
        ).error_code == Some("upstream_error"@),
        failure is None ==> stopped_outcome(kept, failure, event_stream).status == "success"@
            && stopped_outcome(kept, failure, event_stream).error_code is None,
        failure is Some ==> stopped_outcome(kept, failure, event_stream).status == "error"@
            && stopped_outcome(kept, failure, event_stream).error_code == Some(
            "upstream_stream_error"@,
        ),
        stopped_outcome(kept, failure, event_stream).error_message == failure,
        ended_outcome(kept, t).usage == sse_usage(lossy_text(kept)),
        ended_outcome(kept, t).response_id == sse_response_id(lossy_text(kept)),
        event_stream ==> stopped_outcome(kept, failure, event_stream).usage == sse_usage(
            lossy_text(kept),
        ),
{
}

/// What is kept of a response is read as a stream of events where it was sent as one or looks like one,
/// and as one value otherwise.
pub proof fn kept_responses_are_read(kept: Seq<u8>, v: JsonView)
    ensures
        reads_as_sse(kept, true),
        starts_with(lossy_text(kept), "data:"@) ==> reads_as_sse(kept, false),
        json_of_bytes(kept) == Some(v) ==> captured_usage(kept, false) == with_value(no_usage(), v)
            && captured_response_id(kept, false) == response_id_of(v),
        json_of_bytes(kept) is None ==> captured_usage(kept, false) == no_usage()
            && captured_response_id(kept, false) is None,
        captured_usage(kept, true) == sse_usage(lossy_text(kept)),
{
}

/// Of the upstream's headers the client gets exactly those that may be passed on, as they are.
pub proof fn answers_keep_their_headers(headers: Seq<HeaderView>, n: int, h: HeaderView)
    requires
        0 <= n <= headers.len(),
    ensures
        forwarded_back(headers, n).contains(h) <==> (exists|i: int|
            0 <= i < n && #[trigger] headers[i] == h) && forwards_response_header(h.name),
    decreases n,
{
    if n > 0 {
        let before = forwarded_back(headers, n - 1);
        let all = forwarded_back(headers, n);
        answers_keep_their_headers(headers, n - 1, h);
        if all.contains(h) {
            let k = all.index_of(h);
            if k < before.len() {
                assert(before[k] == h);
            } else {
                assert(headers[n - 1] == h);
            }
        }
        if (exists|i: int| 0 <= i < n && #[trigger] headers[i] == h) && forwards_response_header(
            h.name,
        ) {
            let i = choose|i: int| 0 <= i < n && #[trigger] headers[i] == h;
            if i < n - 1 {
                let k = before.index_of(h);
                assert(all[k] == h);
            } else {
                assert(all[before.len() as int] == h);
            }
        }
    }
}

/// The headers of an answer that may be passed on, by name; a cookie is not one of them.
pub proof fn answer_headers_by_name(name: Seq<char>)
    ensures
        name == "content-type"@ || name == "cache-control"@ || name == "etag"@ || name
            == "last-modified"@ || name == "vary"@ || name == "retry-after"@ || name
            == "x-request-id"@ || name == "openai-processing-ms"@ || name
            == "x-ratelimit-limit-requests"@ || name == "x-ratelimit-remaining-requests"@ || name
            == "x-ratelimit-reset-requests"@ || starts_with(name, "x-codex-"@)
            <==> forwards_response_header(name),
        !forwards_response_header("set-cookie"@),
        !forwards_response_header("content-encoding"@),
{
    reveal_strlit("content-type");
    reveal_strlit("cache-control");
    reveal_strlit("etag");
    reveal_strlit("last-modified");
    reveal_strlit("vary");
    reveal_strlit("retry-after");
    reveal_strlit("x-request-id");
    reveal_strlit("openai-processing-ms");
    reveal_strlit("x-ratelimit-limit-requests");
    reveal_strlit("x-ratelimit-remaining-requests");
    reveal_strlit("x-ratelimit-reset-requests");
    reveal_strlit("x-codex-");
    reveal_strlit("set-cookie");
    reveal_strlit("content-encoding");
    assert("set-cookie"@.len() == 10 && "set-cookie"@[0] == 's');
    assert("content-encoding"@.len() == 16 && "content-encoding"@[0] == 'c');
    assert("x-codex-"@[0] == 'x');
    assert("set-cookie"@.take(8)[0] == 's');
    assert("content-encoding"@.take(8)[0] == 'c');
}

/// A request to the proxy is refused where it comes from a browser, and, where a token is configured,
/// where it does not carry that token.
pub proof fn only_trusted_requests_pass(
    token: Seq<char>,
    headers: Seq<HeaderView>,
)
    ensures
        has_header(headers, "origin"@) ==> proxy_refusal(None, headers) is Some && proxy_refusal(
            Some(token),
            headers,
        ) is Some,
        !has_header(headers, "origin"@) ==> proxy_refusal(None, headers) is None,
        !has_header(headers, "origin"@) ==> (proxy_refusal(Some(token), headers) is None
            <==> header_text(headers, "authorization"@) == Some("Bearer "@ + token)),
        header_text(headers, "authorization"@) is None ==> proxy_refusal(
            Some(token),
            headers,
        ) is Some,
{
}

/// A response is a stream of events where its type says so, however it is written.
pub proof fn streams_are_named(text: Seq<char>, i: int)
    ensures
        !says_event_stream(None),
        lower(text) == "text/event-stream"@ ==> says_event_stream(Some(text)),
        0 <= i && i + "text/event-stream"@.len() <= lower(text).len() && lower(text).subrange(
            i,
            i + "text/event-stream"@.len(),
        ) == "text/event-stream"@ ==> says_event_stream(Some(text)),
        lower(text).len() < "text/event-stream"@.len() ==> !says_event_stream(Some(text)),
{
    let part = "text/event-stream"@;
    if lower(text) == part {
        assert(part.subrange(0, part.len() as int) =~= part);
        assert(occurs_at(lower(text), part, 0));
    }
    if 0 <= i && i + part.len() <= lower(text).len() && lower(text).subrange(i, i + part.len())
        == part {
        assert(occurs_at(lower(text), part, i));
    }
}

/// A model is listed under its name.
pub proof fn models_are_listed_by_name(id: Seq<char>)
    ensures
        model_entry(id).get("id"@) == Some(JsonView::Str(id)),
        model_entry(id).get("object"@) == Some(JsonView::Str("model"@)),
{
    reveal_strlit("id");
    reveal_strlit("object");
    reveal_strlit("owned_by");
    let entries = model_entry(id)->Object_0;
    assert(entries[0].0 == "id"@ && entries[1].0 == "object"@ && entries[2].0 == "owned_by"@);
    assert("id"@.len() == 2 && "object"@.len() == 6 && "owned_by"@.len() == 8);
    members_are_first_entries(model_entry(id), "id"@);
    members_are_first_entries(model_entry(id), "object"@);
}

} // verus!
