//! What a request can fail with.
use vstd::prelude::*;

verus! {

#[derive(Debug, Clone, Copy, PartialEq, Eq, Structural)]
pub enum AppErrorKind {
    BadRequest,
    Unauthorized,
    NotFound,
    Unavailable,
    Upstream,
    Internal,
}

/// A failure, with a message for the client.
#[derive(Debug, Clone)]
pub enum AppError {
    BadRequest(String),
    Unauthorized(String),
    NotFound(String),
    Unavailable(String),
    Upstream(String),
    Internal(String),
}

impl View for AppError {
    type V = (AppErrorKind, Seq<char>);

    open spec fn view(&self) -> (AppErrorKind, Seq<char>) {
        match self {
            AppError::BadRequest(text) => (AppErrorKind::BadRequest, text@),
            AppError::Unauthorized(text) => (AppErrorKind::Unauthorized, text@),
            AppError::NotFound(text) => (AppErrorKind::NotFound, text@),
            AppError::Unavailable(text) => (AppErrorKind::Unavailable, text@),
            AppError::Upstream(text) => (AppErrorKind::Upstream, text@),
            AppError::Internal(text) => (AppErrorKind::Internal, text@),
        }
    }
}

/// What a failed result failed with, where it failed.
pub open spec fn failure<T>(r: Result<T, AppError>) -> Option<(AppErrorKind, Seq<char>)> {
    match r {
        Ok(_) => None,
        Err(e) => Some(e@),
    }
}

pub open spec fn bad_request_of(text: Seq<char>) -> Option<(AppErrorKind, Seq<char>)> {
    Some((AppErrorKind::BadRequest, text))
}

pub open spec fn not_found_of(text: Seq<char>) -> Option<(AppErrorKind, Seq<char>)> {
    Some((AppErrorKind::NotFound, text))
}

pub open spec fn internal_of(text: Seq<char>) -> Option<(AppErrorKind, Seq<char>)> {
    Some((AppErrorKind::Internal, text))
}

pub fn bad_request(text: &str) -> (r: AppError)
    ensures
        r@ == (AppErrorKind::BadRequest, text@),
{
    AppError::BadRequest(text.to_owned())
}

pub fn not_found(text: &str) -> (r: AppError)
    ensures
        r@ == (AppErrorKind::NotFound, text@),
{
    AppError::NotFound(text.to_owned())
}

pub fn internal(text: &str) -> (r: AppError)
    ensures
        r@ == (AppErrorKind::Internal, text@),
{
    AppError::Internal(text.to_owned())
}

impl AppErrorKind {
    /// The status that an error of this kind is answered with.
    pub open spec fn status(self) -> u16 {
        match self {
            AppErrorKind::BadRequest => 400u16,
            AppErrorKind::Unauthorized => 401u16,
            AppErrorKind::NotFound => 404u16,
            AppErrorKind::Unavailable => 503u16,
            AppErrorKind::Upstream => 502u16,
            AppErrorKind::Internal => 500u16,
        }
    }

    /// The name that an error of this kind is answered with.
    pub open spec fn name(self) -> Seq<char> {
        match self {
            AppErrorKind::BadRequest => "bad_request"@,
            AppErrorKind::Unauthorized => "unauthorized"@,
            AppErrorKind::NotFound => "not_found"@,
            AppErrorKind::Unavailable => "unavailable"@,
            AppErrorKind::Upstream => "upstream"@,
            AppErrorKind::Internal => "internal"@,
        }
    }
}

impl AppError {
    /// The HTTP status of the answer.
    pub fn status_code(&self) -> (r: u16)
        ensures
            r == self@.0.status(),
            r == match self@.0 {
                AppErrorKind::BadRequest => 400u16,
                AppErrorKind::Unauthorized => 401u16,
                AppErrorKind::NotFound => 404u16,
                AppErrorKind::Unavailable => 503u16,
                AppErrorKind::Upstream => 502u16,
                AppErrorKind::Internal => 500u16,
            },
    {
        match self {
            AppError::BadRequest(_) => 400,
            AppError::Unauthorized(_) => 401,
            AppError::NotFound(_) => 404,
            AppError::Unavailable(_) => 503,
            AppError::Upstream(_) => 502,
            AppError::Internal(_) => 500,
        }
    }

    /// The machine-readable code of the answer.
    pub fn code(&self) -> (r: &'static str)
        ensures
            r@ == self@.0.name(),
            r@ == match self@.0 {
                AppErrorKind::BadRequest => "bad_request"@,
                AppErrorKind::Unauthorized => "unauthorized"@,
                AppErrorKind::NotFound => "not_found"@,
                AppErrorKind::Unavailable => "unavailable"@,
                AppErrorKind::Upstream => "upstream"@,
                AppErrorKind::Internal => "internal"@,
            },
    {
        match self {
            AppError::BadRequest(_) => "bad_request",
            AppError::Unauthorized(_) => "unauthorized",
            AppError::NotFound(_) => "not_found",
            AppError::Unavailable(_) => "unavailable",
            AppError::Upstream(_) => "upstream",
            AppError::Internal(_) => "internal",
        }
    }

    pub fn message(&self) -> (r: &str)
        ensures
            r@ == self@.1,
    {
        match self {
            AppError::BadRequest(text) => text,
            AppError::Unauthorized(text) => text,
            AppError::NotFound(text) => text,
            AppError::Unavailable(text) => text,
            AppError::Upstream(text) => text,
            AppError::Internal(text) => text,
        }
    }
}

/// Each kind of error has a status and a name of its own; the faults of the client are below five
/// hundred, and all others from there on.
pub proof fn errors_have_their_status(kind: AppErrorKind, other: AppErrorKind)
    ensures
        AppErrorKind::BadRequest.status() == 400,
        AppErrorKind::Unauthorized.status() == 401,
        AppErrorKind::NotFound.status() == 404,
        AppErrorKind::Unavailable.status() == 503,
        AppErrorKind::Upstream.status() == 502,
        AppErrorKind::Internal.status() == 500,
        kind.status() == other.status() ==> kind == other,
        kind is BadRequest || kind is Unauthorized || kind is NotFound <==> kind.status() < 500,
        AppErrorKind::BadRequest.name() == "bad_request"@,
        AppErrorKind::Unauthorized.name() == "unauthorized"@,
        AppErrorKind::NotFound.name() == "not_found"@,
        AppErrorKind::Unavailable.name() == "unavailable"@,
        AppErrorKind::Upstream.name() == "upstream"@,
        AppErrorKind::Internal.name() == "internal"@,
{
}

/// An error is seen by its kind and its text.
pub proof fn errors_are_seen_by_kind(text: String)
    ensures
        AppError::BadRequest(text)@ == (AppErrorKind::BadRequest, text@),
        AppError::Unauthorized(text)@ == (AppErrorKind::Unauthorized, text@),
        AppError::NotFound(text)@ == (AppErrorKind::NotFound, text@),
        AppError::Unavailable(text)@ == (AppErrorKind::Unavailable, text@),
        AppError::Upstream(text)@ == (AppErrorKind::Upstream, text@),
        AppError::Internal(text)@ == (AppErrorKind::Internal, text@),
{
}

} // verus!
