//! The admin API: who may use it, what an import does, and which requests are refused.
use vstd::prelude::*;
use crate::affinity::{get_header, header_text};
use crate::auth_file::{
    parse_auth_json, parsed_auth, tokens_claims, AuthClaims, AuthFile, AuthFileError, AuthView,
};
use crate::error::{bad_request, bad_request_of, failure, AppError, AppErrorKind};
use crate::json::{
    entry_views, member_text, members_are_first_entries, put, Json, JsonView,
};
use crate::models::ResolveSessionRoutesRequest;
use crate::settings::{setting_refusal, setting_views, validate_settings};
use crate::text::{chars_of, concat, same, views};
use crate::time::{is_time, NANOS};
use crate::upstream::{header_views, Header, HeaderView};

verus! {

/// Why a request to the administration is refused.
pub open spec fn admin_refusal(expected: Option<Seq<char>>, headers: Seq<HeaderView>) -> Option<
    (AppErrorKind, Seq<char>),
> {
    match expected {
        Some(token) => if header_text(headers, "authorization"@) == Some("Bearer "@ + token) {
            None
        } else {
            Some((AppErrorKind::Unauthorized, "invalid admin token"@))
        },
        None => None,
    }
}

/// Refuses requests without the admin token, where there is one.
pub fn admin_auth(expected: &Option<String>, headers: &Vec<Header>) -> (r: Result<(), AppError>)
    ensures
        failure(r) == admin_refusal(expected.deep_view(), header_views(headers@)),
        failure(r) == match expected.deep_view() {
            Some(token) => if header_text(header_views(headers@), "authorization"@) == Some(
                "Bearer "@ + token,
            ) {
                None
            } else {
                Some((AppErrorKind::Unauthorized, "invalid admin token"@))
            },
            None => None,
        },
{
    match expected {
        None => Ok(()),
        Some(token) => {
            let wanted = concat("Bearer ", token);
            let given = match get_header(headers, "authorization") {
                Some(text) => same(&text, &wanted),
                None => false,
            };
            if given {
                Ok(())
            } else {
                Err(AppError::Unauthorized("invalid admin token".to_owned()))
            }
        },
    }
}

pub open spec fn is_hex(c: char) -> bool {
    '0' <= c <= '9' || 'a' <= c <= 'f' || 'A' <= c <= 'F'
}

/// A hash of a session: 64 hexadecimal digits.
pub open spec fn is_session_hash(s: Seq<char>) -> bool {
    s.len() == 64 && forall|i: int| 0 <= i < s.len() ==> is_hex(#[trigger] s[i])
}

fn valid_session_hash(s: &str) -> (r: bool)
    ensures
        r == is_session_hash(s@),
{
    let chars = chars_of(s);
    if chars.len() != 64 {
        return false;
    }
    let mut i: usize = 0;
    while i < chars.len()
        invariant
            i <= chars.len(),
            chars@ == s@,
            forall|k: int| 0 <= k < i ==> is_hex(#[trigger] s@[k]),
        decreases chars.len() - i,
    {
        let c = chars[i];
        if !(('0' <= c && c <= '9') || ('a' <= c && c <= 'f') || ('A' <= c && c <= 'F')) {
            assert(!is_hex(s@[i as int]));
            return false;
        }
        i += 1;
    }
    true
}

/// Why hashes of sessions are not resolved.
pub open spec fn resolve_refusal(hashes: Seq<Seq<char>>) -> Option<(AppErrorKind, Seq<char>)> {
    if hashes.len() > 500 {
        bad_request_of("at most 500 session hashes can be resolved at once"@)
    } else if forall|i: int| 0 <= i < hashes.len() ==> is_session_hash(#[trigger] hashes[i]) {
        None
    } else {
        bad_request_of("session hashes must be 64 hexadecimal characters"@)
    }
}

/// Refuses a question for more than 500 routes, or for what is no hash.
pub fn check_resolve_request(request: &ResolveSessionRoutesRequest) -> (r: Result<(), AppError>)
    ensures
        failure(r) == resolve_refusal(views(request.key_hashes@)),
        failure(r) == ({
            let hashes = views(request.key_hashes@);
            if hashes.len() > 500 {
                bad_request_of("at most 500 session hashes can be resolved at once"@)
            } else if forall|i: int| 0 <= i < hashes.len() ==> is_session_hash(#[trigger] hashes[i]) {
                None
            } else {
                bad_request_of("session hashes must be 64 hexadecimal characters"@)
            }
        }),
{
    let hashes = &request.key_hashes;
    let ghost all = views(hashes@);
    if hashes.len() > 500 {
        return Err(bad_request("at most 500 session hashes can be resolved at once"));
    }
    let mut i: usize = 0;
    while i < hashes.len()
        invariant
            i <= hashes.len() <= 500,
            all == views(hashes@),
            hashes@ == request.key_hashes@,
            forall|k: int| 0 <= k < i ==> is_session_hash(#[trigger] all[k]),
        decreases hashes.len() - i,
    {
        assert(all[i as int] == hashes@[i as int]@);
        if !valid_session_hash(&hashes[i]) {
            return Err(bad_request("session hashes must be 64 hexadecimal characters"));
        }
        i += 1;
    }
    Ok(())
}

/// What an import asks for: the credentials, what they claim, and the label.
pub struct ImportRequest {
    pub auth: AuthFile,
    pub claims: AuthClaims,
    pub label: Option<String>,
}

/// The credentials in an import: a member of their own, or the whole of it.
pub open spec fn import_auth(payload: JsonView) -> JsonView {
    match payload.get("auth"@) {
        Some(auth) => auth,
        None => payload,
    }
}

pub fn read_import(payload: &Json) -> (r: Result<ImportRequest, AppError>)
    ensures
        match r {
            Ok(request) => {
                &&& parsed_auth(import_auth(payload@)) == Ok::<AuthView, AuthFileError>(
                    request.auth@,
                )
                &&& request.claims@ == tokens_claims(request.auth@.tokens)
                &&& request.label.deep_view() == member_text(payload@, "label"@)
            },
            Err(e) => {
                &&& parsed_auth(import_auth(payload@)) is Err
                &&& e@ == (
                    AppErrorKind::BadRequest,
                    parsed_auth(import_auth(payload@))->Err_0.text(),
                )
            },
        },
{
    let label = match payload.get_str("label") {
        Some(text) => Some(text.to_owned()),
        None => None,
    };
    let parsed = match payload.get("auth") {
        Some(auth) => parse_auth_json(auth),
        None => parse_auth_json(payload),
    };
    match parsed {
        Ok((auth, claims)) => Ok(ImportRequest { auth, claims, label }),
        Err(e) => Err(bad_request(e.message())),
    }
}

/// What an import does once the account is taken in.
#[derive(Debug, Clone, Copy, PartialEq, Eq, Structural)]
pub enum ImportStep {
    /// Refresh the tokens.
    RefreshToken,
    /// Read the usage.
    RefreshUsage,
    /// Answer with the account and the warnings.
    Finish,
}

/// An import that is going on, with what went wrong in it.
#[derive(Debug)]
pub struct Import {
    warnings: Vec<String>,
}

/// What an import starts with: new tokens where those that were imported expire within five minutes.
pub open spec fn first_step(expires_at: Option<i128>, now: int) -> ImportStep {
    if expires_at is Some && expires_at->0 <= now + 300 * NANOS {
        ImportStep::RefreshToken
    } else {
        ImportStep::RefreshUsage
    }
}

impl Import {
    pub closed spec fn texts(self) -> Seq<Seq<char>> {
        views(self.warnings@)
    }

    /// Starts with the tokens where they run out within five minutes, else with the usage.
    pub fn start(access_token_expires_at: Option<i128>, now: i128) -> (r: (Import, ImportStep))
        requires
            is_time(now as int),
        ensures
            r.0.texts() == Seq::<Seq<char>>::empty(),
            r.1 == first_step(access_token_expires_at, now as int),
            r.1 == if access_token_expires_at is Some && access_token_expires_at->0 <= now + 300
                * NANOS {
                ImportStep::RefreshToken
            } else {
                ImportStep::RefreshUsage
            },
    {
        let import = Import { warnings: Vec::new() };
        assert(views(import.warnings@) =~= Seq::empty());
        let soon = match access_token_expires_at {
            Some(at) => at <= now + 300 * NANOS,
            None => false,
        };
        if soon {
            (import, ImportStep::RefreshToken)
        } else {
            (import, ImportStep::RefreshUsage)
        }
    }

    fn warn(&mut self, start: &str, error: &str) -> (r: String)
        ensures
            r@ == start@ + error@,
            final(self).texts() == old(self).texts().push(start@ + error@),
    {
        let ghost before = views(self.warnings@);
        let message = concat(start, error);
        self.warnings.push(message.clone());
        assert(views(self.warnings@) =~= before.push(start@ + error@));
        message
    }

    /// After the tokens: where they could not be refreshed, the import ends with a warning, which is
    /// noted of the account.
    pub fn tokens_refreshed(&mut self, error: Option<&str>) -> (r: (ImportStep, Option<String>))
        ensures
            match error {
                None => r.0 == ImportStep::RefreshUsage && r.1 is None && final(self).texts()
                    == old(self).texts(),
                Some(text) => {
                    let message = "initial token refresh failed: "@ + text@;
                    r.0 == ImportStep::Finish && r.1.deep_view() == Some(message) && final(self).texts()
                        == old(self).texts().push(message)
                },
            },
    {
        match error {
            None => (ImportStep::RefreshUsage, None),
            Some(text) => {
                let message = self.warn("initial token refresh failed: ", text);
                (ImportStep::Finish, Some(message))
            },
        }
    }

    /// After the usage: where it could not be read, that is a warning, which is noted of the account.
    pub fn usage_refreshed(&mut self, error: Option<&str>) -> (r: (ImportStep, Option<String>))
        ensures
            r.0 == ImportStep::Finish,
            match error {
                None => r.1 is None && final(self).texts() == old(self).texts(),
                Some(text) => {
                    let message = "initial usage refresh failed: "@ + text@;
                    r.1.deep_view() == Some(message) && final(self).texts() == old(self).texts().push(
                        message,
                    )
                },
            },
    {
        match error {
            None => (ImportStep::Finish, None),
            Some(text) => {
                let message = self.warn("initial usage refresh failed: ", text);
                (ImportStep::Finish, Some(message))
            },
        }
    }

    /// The warnings, provided that the account is still there.
    pub fn finish(self, found: bool) -> (r: Result<Vec<String>, AppError>)
        ensures
            match r {
                Ok(warnings) => found && views(warnings@) == self.texts(),
                Err(e) => !found && e@ == (AppErrorKind::NotFound, "imported account disappeared"@),
            },
    {
        if found {
            Ok(self.warnings)
        } else {
            Err(AppError::NotFound("imported account disappeared".to_owned()))
        }
    }
}

/// The settings in a request, refused where it is no object or holds a setting that is not accepted.
pub fn check_settings(payload: Json) -> (r: Result<Vec<(String, Json)>, AppError>)
    ensures
        match r {
            Ok(rows) => payload@ == JsonView::Object(entry_views(rows@)) && forall|i: int|
                0 <= i < rows.len() ==> setting_refusal(
                    (#[trigger] setting_views(rows@)[i]).0,
                    setting_views(rows@)[i].1,
                ) is None,
            Err(e) => e@.0 == AppErrorKind::BadRequest && match payload@ {
                JsonView::Object(entries) => exists|i: int|
                    0 <= i < entries.len() && setting_refusal(
                        (#[trigger] entries[i]).0,
                        entries[i].1,
                    ) == Some(e@.1) && forall|j: int|
                        0 <= j < i ==> setting_refusal(
                            (#[trigger] entries[j]).0,
                            entries[j].1,
                        ) is None,
                _ => e@.1 == "settings payload must be a JSON object"@,
            },
        },
{
    match payload {
        Json::Object(rows) => {
            assert(payload@->Object_0 =~= entry_views(rows@));
            match validate_settings(&rows) {
                Ok(_) => Ok(rows),
                Err(e) => {
                    proof {
                        let all = setting_views(rows@);
                        let i = choose|i: int|
                            #![trigger setting_views(rows@)[i]]
                            0 <= i < rows.len() && setting_refusal(
                                setting_views(rows@)[i].0,
                                setting_views(rows@)[i].1,
                            ) == Some(e@.1) && forall|j: int|
                                0 <= j < i ==> setting_refusal(
                                    (#[trigger] setting_views(rows@)[j]).0,
                                    setting_views(rows@)[j].1,
                                ) is None;
                        assert(entry_views(rows@) =~= all);
                        assert(entry_views(rows@)[i] == all[i]);
                    }
                    Err(e)
                },
            }
        },
        _ => Err(bad_request("settings payload must be a JSON object")),
    }
}

pub open spec fn health_json(database: bool) -> JsonView {
    JsonView::Object(
        seq![
            (
                "status"@,
                JsonView::Str(
                    if database {
                        "ok"@
                    } else {
                        "degraded"@
                    },
                ),
            ),
            ("database"@, JsonView::Bool(database)),
        ],
    )
}

/// The answer to a question for the daemon's health.
pub fn health(database: bool) -> (r: Json)
    ensures
        r@ == health_json(database),
{
    let mut entries: Vec<(String, Json)> = Vec::new();
    put(
        &mut entries,
        "status",
        Json::of_text(
            if database {
                "ok"
            } else {
                "degraded"
            },
        ),
    );
    put(&mut entries, "database", Json::Bool(database));
    assert(entry_views(entries@) =~= health_json(database)->Object_0);
    Json::object(entries)
}

/// Where a token is configured, only a request that carries it passes; without one every request does.
pub proof fn administration_asks_for_its_token(token: Seq<char>, headers: Seq<HeaderView>)
    ensures
        admin_refusal(None, headers) is None,
        admin_refusal(Some(token), headers) is None <==> header_text(headers, "authorization"@)
            == Some("Bearer "@ + token),
        header_text(headers, "authorization"@) is None ==> (admin_refusal(
            Some(token),
            headers,
        ) matches Some(e) && e.0 is Unauthorized),
{
}

/// Hashes are resolved where there are 500 of them at most, each of 64 hexadecimal digits.
pub proof fn only_hashes_are_resolved(hashes: Seq<Seq<char>>, i: int)
    requires
        0 <= i < hashes.len(),
    ensures
        hashes.len() > 500 ==> resolve_refusal(hashes) is Some,
        resolve_refusal(hashes) is None ==> hashes.len() <= 500 && hashes[i].len() == 64,
        hashes[i].len() != 64 ==> resolve_refusal(hashes) is Some,
        hashes.len() <= 500 && (forall|k: int|
            0 <= k < hashes.len() ==> is_session_hash(#[trigger] hashes[k])) ==> resolve_refusal(
            hashes,
        ) is None,
{
}

/// A hexadecimal digit is a decimal digit or one of the first six letters, of either case.
pub proof fn hexadecimal_digits(c: char)
    ensures
        is_hex(c) <==> '0' <= c <= '9' || 'a' <= c <= 'f' || 'A' <= c <= 'F',
{
}

/// An import starts with new tokens where those that it brings expire within five minutes, and
/// otherwise with the usage.
pub proof fn imports_start_with_fresh_tokens(expires_at: i128, now: int)
    ensures
        first_step(None, now) is RefreshUsage,
        expires_at - now <= 300 * 1_000_000_000 ==> first_step(Some(expires_at), now) is RefreshToken,
        expires_at - now > 300 * 1_000_000_000 ==> first_step(Some(expires_at), now) is RefreshUsage,
{
}

/// What is imported is the file under its name, or the whole where there is none of that name.
pub proof fn imports_may_be_wrapped(payload: JsonView, auth: JsonView)
    ensures
        payload.get("auth"@) == Some(auth) ==> import_auth(payload) == auth,
        payload.get("auth"@) is None ==> import_auth(payload) == payload,
{
}

/// The daemon is healthy exactly where its database is.
pub proof fn health_is_that_of_the_database()
    ensures
        health_json(true).get("status"@) == Some(JsonView::Str("ok"@)),
        health_json(false).get("status"@) == Some(JsonView::Str("degraded"@)),
        health_json(true).get("database"@) == Some(JsonView::Bool(true)),
        health_json(false).get("database"@) == Some(JsonView::Bool(false)),
{
    reveal_strlit("status");
    reveal_strlit("database");
    assert("status"@.len() == 6 && "database"@.len() == 8);
    members_are_first_entries(health_json(true), "status"@);
    members_are_first_entries(health_json(false), "status"@);
    members_are_first_entries(health_json(true), "database"@);
    members_are_first_entries(health_json(false), "database"@);
    let a = health_json(true)->Object_0;
    let b = health_json(false)->Object_0;
    assert(a[0].0 == "status"@ && a[1].0 == "database"@);
    assert(b[0].0 == "status"@ && b[1].0 == "database"@);
}

} // verus!
