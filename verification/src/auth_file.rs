//! Credential files: their tokens, and what the tokens claim of the account.
use vstd::prelude::*;
use vstd::string::StringExecFns;
use crate::double::{cut, cut_to_i64};
use crate::encoding::{
    decode_padded_url_base64, decode_url_base64, padded_url_base64_bytes, url_base64_bytes,
};
use crate::json::{
    Json, JsonNumber, JsonView, json_of_bytes, members_are_first_entries, opt_view, parse_bytes,
};
use crate::text::{
    chars_of, clone_opt, decimal_value, lower, parse_i64, quote, quoted, same, same_ignoring_case,
    slice_of, trim, trimmed,
};
use crate::time::{
    NANOS, date_of_millis, date_of_seconds, epoch, epoch_millis, is_time, nanos_of, parse_date,
    parse_rfc3339, point_of, rfc3339_date, show_time, shown_time, text_date,
};

verus! {

/// A credential file. Points in time are nanoseconds since 1970.
pub struct AuthFile {
    pub openai_api_key: Option<String>,
    pub tokens: AuthTokens,
    pub last_refresh_at: Option<i128>,
}

pub struct AuthTokens {
    pub id_token: String,
    pub access_token: String,
    pub refresh_token: String,
    pub account_id: Option<String>,
}

pub struct TokensView {
    pub id: Seq<char>,
    pub access: Seq<char>,
    pub refresh: Seq<char>,
    pub account: Option<Seq<char>>,
}

pub struct AuthView {
    pub api_key: Option<Seq<char>>,
    pub tokens: TokensView,
    pub last_refresh_at: Option<i128>,
}

impl View for AuthTokens {
    type V = TokensView;

    open spec fn view(&self) -> TokensView {
        TokensView {
            id: self.id_token@,
            access: self.access_token@,
            refresh: self.refresh_token@,
            account: self.account_id.deep_view(),
        }
    }
}

impl View for AuthFile {
    type V = AuthView;

    open spec fn view(&self) -> AuthView {
        AuthView {
            api_key: self.openai_api_key.deep_view(),
            tokens: self.tokens@,
            last_refresh_at: self.last_refresh_at,
        }
    }
}

/// What stands for a secret in logs.
pub open spec fn mask(value: Seq<char>) -> Seq<char> {
    if value.len() == 0 {
        "[EMPTY]"@
    } else {
        "[REDACTED]"@
    }
}

pub fn redacted(value: &str) -> (r: &'static str)
    ensures
        r@ == mask(value@),
{
    if value.is_empty() {
        "[EMPTY]"
    } else {
        "[REDACTED]"
    }
}

/// What stands for a secret in logs, in quotes.
pub open spec fn quoted_mask(value: Seq<char>) -> Seq<char> {
    "\""@ + mask(value) + "\""@
}

/// The tokens as logs may show them.
pub open spec fn tokens_log(t: TokensView) -> Seq<char> {
    "AuthTokens { id_token: "@ + quoted_mask(t.id) + ", access_token: "@ + quoted_mask(t.access)
        + ", refresh_token: "@ + quoted_mask(t.refresh) + ", account_id: "@ + match t.account {
        Some(id) => "Some("@ + quoted(id) + ")"@,
        None => "None"@,
    } + " }"@
}

/// The credential file as logs may show it.
pub open spec fn auth_log(a: AuthView) -> Seq<char> {
    "AuthFile { openai_api_key: "@ + match a.api_key {
        Some(_) => "Some(\"[REDACTED]\")"@,
        None => "None"@,
    } + ", tokens: "@ + tokens_log(a.tokens) + ", last_refresh_at: "@ + match a.last_refresh_at {
        Some(at) => "Some("@ + shown_time(at as int) + ")"@,
        None => "None"@,
    } + " }"@
}

impl AuthTokens {
    /// The tokens as logs may show them.
    pub fn log_text(&self) -> (r: String)
        ensures
            r@ == tokens_log(self@),
    {
        let mut r = "AuthTokens { id_token: ".to_owned();
        r.append("\"");
        r.append(redacted(&self.id_token));
        r.append("\"");
        r.append(", access_token: ");
        r.append("\"");
        r.append(redacted(&self.access_token));
        r.append("\"");
        r.append(", refresh_token: ");
        r.append("\"");
        r.append(redacted(&self.refresh_token));
        r.append("\"");
        r.append(", account_id: ");
        match &self.account_id {
            Some(id) => {
                r.append("Some(");
                r.append(&quote(id));
                r.append(")");
            },
            None => r.append("None"),
        }
        r.append(" }");
        proof {
            let t = self@;
            let account = match t.account {
                Some(id) => "Some("@ + quoted(id) + ")"@,
                None => "None"@,
            };
            assert(r@ =~= "AuthTokens { id_token: "@ + quoted_mask(t.id) + ", access_token: "@
                + quoted_mask(t.access) + ", refresh_token: "@ + quoted_mask(t.refresh)
                + ", account_id: "@ + account + " }"@);
        }
        r
    }
}

impl AuthFile {
    /// The credential file as logs may show it.
    pub fn log_text(&self) -> (r: String)
        requires
            self.last_refresh_at matches Some(at) ==> is_time(at as int),
        ensures
            r@ == auth_log(self@),
    {
        let mut r = "AuthFile { openai_api_key: ".to_owned();
        match &self.openai_api_key {
            Some(_) => r.append("Some(\"[REDACTED]\")"),
            None => r.append("None"),
        }
        r.append(", tokens: ");
        r.append(&self.tokens.log_text());
        r.append(", last_refresh_at: ");
        match self.last_refresh_at {
            Some(at) => {
                r.append("Some(");
                r.append(&show_time(at));
                r.append(")");
            },
            None => r.append("None"),
        }
        r.append(" }");
        proof {
            let a = self@;
            let key = match a.api_key {
                Some(_) => "Some(\"[REDACTED]\")"@,
                None => "None"@,
            };
            let last = match a.last_refresh_at {
                Some(at) => "Some("@ + shown_time(at as int) + ")"@,
                None => "None"@,
            };
            assert(r@ =~= "AuthFile { openai_api_key: "@ + key + ", tokens: "@ + tokens_log(
                a.tokens,
            ) + ", last_refresh_at: "@ + last + " }"@);
        }
        r
    }
}

/// Logs tell nothing of a secret but whether it is there: two files that differ in nothing else are
/// shown alike.
pub proof fn logs_do_not_tell_secrets(a: AuthView, b: AuthView)
    requires
        (a.api_key is Some) == (b.api_key is Some),
        (a.tokens.id.len() == 0) == (b.tokens.id.len() == 0),
        (a.tokens.access.len() == 0) == (b.tokens.access.len() == 0),
        (a.tokens.refresh.len() == 0) == (b.tokens.refresh.len() == 0),
        a.tokens.account == b.tokens.account,
        a.last_refresh_at == b.last_refresh_at,
    ensures
        auth_log(a) == auth_log(b),
{
}

/// What the tokens claim of an account.
#[derive(Debug)]
pub struct AuthClaims {
    pub chatgpt_account_id: Option<String>,
    pub email: String,
    pub plan_type: String,
    pub access_token_expires_at: Option<i128>,
    pub id_token_expires_at: Option<i128>,
    pub workspace_id: Option<String>,
    pub workspace_name: Option<String>,
    pub workspace_role: Option<String>,
    pub workspace_is_default: Option<bool>,
}

pub struct ClaimsView {
    pub account: Option<Seq<char>>,
    pub email: Seq<char>,
    pub plan: Seq<char>,
    pub access_expires_at: Option<i128>,
    pub id_expires_at: Option<i128>,
    pub workspace: WorkspaceView,
}

pub struct WorkspaceView {
    pub id: Option<Seq<char>>,
    pub name: Option<Seq<char>>,
    pub role: Option<Seq<char>>,
    pub is_default: Option<bool>,
}

impl View for AuthClaims {
    type V = ClaimsView;

    open spec fn view(&self) -> ClaimsView {
        ClaimsView {
            account: self.chatgpt_account_id.deep_view(),
            email: self.email@,
            plan: self.plan_type@,
            access_expires_at: self.access_token_expires_at,
            id_expires_at: self.id_token_expires_at,
            workspace: WorkspaceView {
                id: self.workspace_id.deep_view(),
                name: self.workspace_name.deep_view(),
                role: self.workspace_role.deep_view(),
                is_default: self.workspace_is_default,
            },
        }
    }
}

pub open spec fn first_of<T>(a: Option<T>, b: Option<T>) -> Option<T> {
    match a {
        Some(x) => Some(x),
        None => b,
    }
}

impl AuthClaims {
    /// The expiry that controls whether this credential can make upstream requests.
    pub fn token_expires_at(&self) -> (r: Option<i128>)
        ensures
            r == first_of(self@.access_expires_at, self@.id_expires_at),
    {
        match self.access_token_expires_at {
            Some(at) => Some(at),
            None => self.id_token_expires_at,
        }
    }
}

/// Why a credential file is refused.
#[derive(Debug, Clone, Copy, PartialEq, Eq, Structural)]
pub enum AuthFileError {
    InvalidPayload,
    MissingTokens,
    NoProvider,
    InvalidProvider,
    MissingProviderTokens,
}

impl AuthFileError {
    pub open spec fn text(self) -> Seq<char> {
        match self {
            AuthFileError::InvalidPayload => "invalid auth.json payload"@,
            AuthFileError::MissingTokens => "auth.json is missing one or more tokens"@,
            AuthFileError::NoProvider =>
                "OpenCode auth payload does not contain an OAuth provider"@,
            AuthFileError::InvalidProvider => "invalid OpenCode OAuth provider payload"@,
            AuthFileError::MissingProviderTokens =>
                "OpenCode OAuth provider is missing an access or refresh token"@,
        }
    }

    pub fn message(self) -> (r: &'static str)
        ensures
            r@ == self.text(),
    {
        match self {
            AuthFileError::InvalidPayload => "invalid auth.json payload",
            AuthFileError::MissingTokens => "auth.json is missing one or more tokens",
            AuthFileError::NoProvider => "OpenCode auth payload does not contain an OAuth provider",
            AuthFileError::InvalidProvider => "invalid OpenCode OAuth provider payload",
            AuthFileError::MissingProviderTokens =>
                "OpenCode OAuth provider is missing an access or refresh token",
        }
    }
}

/// The text of a value, trimmed, where there is any.
pub open spec fn solid_text(v: JsonView) -> Option<Seq<char>> {
    match v {
        JsonView::Str(text) => solid(Some(text)),
        _ => None,
    }
}

/// A text trimmed, where anything is left of it.
pub open spec fn solid(text: Option<Seq<char>>) -> Option<Seq<char>> {
    match text {
        Some(t) => if trimmed(t).len() > 0 {
            Some(trimmed(t))
        } else {
            None
        },
        None => None,
    }
}

/// The trimmed text of a member, where there is any.
pub open spec fn solid_member(v: JsonView, key: Seq<char>) -> Option<Seq<char>> {
    match v.get(key) {
        Some(inner) => solid_text(inner),
        None => None,
    }
}

fn non_empty_str(value: &Json) -> (r: Option<String>)
    ensures
        r.deep_view() == solid_text(value@),
{
    match value {
        Json::Str(text) => {
            let t = trim(text);
            if t.as_str().is_empty() {
                None
            } else {
                Some(t)
            }
        },
        _ => None,
    }
}

fn non_empty_owned(value: &Option<String>) -> (r: Option<String>)
    ensures
        r.deep_view() == solid(value.deep_view()),
{
    match value {
        Some(text) => {
            let t = trim(text);
            if t.as_str().is_empty() {
                None
            } else {
                Some(t)
            }
        },
        None => None,
    }
}

fn solid_string(value: &Json, key: &str) -> (r: Option<String>)
    ensures
        r.deep_view() == solid_member(value@, key@),
{
    match value.get(key) {
        Some(inner) => non_empty_str(inner),
        None => None,
    }
}

/// The claims in the namespace for authentication, where they are an object.
pub open spec fn auth_object(claims: JsonView) -> Option<JsonView> {
    match claims.get("https://api.openai.com/auth"@) {
        Some(v) => if v is Object {
            Some(v)
        } else {
            None
        },
        None => None,
    }
}

fn auth_claims(claims: &Json) -> (r: Option<&Json>)
    ensures
        opt_view(r) == auth_object(claims@),
{
    match claims.get("https://api.openai.com/auth") {
        Some(v) => if v.is_object() {
            Some(v)
        } else {
            None
        },
        None => None,
    }
}

/// A claim: in the namespace for authentication, else at the top.
pub open spec fn claim(claims: JsonView, key: Seq<char>) -> Option<Seq<char>> {
    let inner = match auth_object(claims) {
        Some(auth) => solid_member(auth, key),
        None => None,
    };
    first_of(inner, solid_member(claims, key))
}

fn claim_string(claims: &Json, key: &str) -> (r: Option<String>)
    ensures
        r.deep_view() == claim(claims@, key@),
{
    if let Some(auth) = auth_claims(claims) {
        if let Some(text) = solid_string(auth, key) {
            return Some(text);
        }
    }
    solid_string(claims, key)
}

/// The e-mail claim: at the top, else in the namespace for the profile.
pub open spec fn email_of(claims: JsonView) -> Option<Seq<char>> {
    let inner = match claims.get("https://api.openai.com/profile"@) {
        Some(profile) => solid_member(profile, "email"@),
        None => None,
    };
    first_of(solid_member(claims, "email"@), inner)
}

fn email_claim(claims: &Json) -> (r: Option<String>)
    ensures
        r.deep_view() == email_of(claims@),
{
    if let Some(text) = solid_string(claims, "email") {
        return Some(text);
    }
    match claims.get("https://api.openai.com/profile") {
        Some(profile) => solid_string(profile, "email"),
        None => None,
    }
}

/// A number as a point in time: large ones are milliseconds, others seconds since 1970.
pub open spec fn epoch_point(raw: i64) -> Option<i128> {
    if raw >= 100000000000 || raw <= -100000000000 {
        match epoch_millis(raw) {
            Some(ms) => Some((ms * 1000000) as i128),
            None => None,
        }
    } else {
        match epoch(raw) {
            Some(s) => Some((s * NANOS) as i128),
            None => None,
        }
    }
}

fn epoch_timestamp(raw: i64) -> (r: Option<i128>)
    ensures
        r == epoch_point(raw),
{
    if raw >= 100000000000 || raw <= -100000000000 {
        match date_of_millis(raw) {
            Some(ms) => Some(ms as i128 * 1000000),
            None => None,
        }
    } else {
        match date_of_seconds(raw) {
            Some(s) => Some(s as i128 * NANOS),
            None => None,
        }
    }
}

/// A value as a point in time: a number of seconds or milliseconds, such a number in a text, or a
/// date in RFC 3339.
pub open spec fn point_in_time(v: JsonView) -> Option<i128> {
    match v {
        JsonView::Number(JsonNumber::PosInt(n)) => if n <= i64::MAX {
            epoch_point(n as i64)
        } else {
            None
        },
        JsonView::Number(JsonNumber::NegInt(n)) => epoch_point(n),
        JsonView::Number(JsonNumber::Float(bits)) => match cut(bits) {
            Some(n) => epoch_point(n),
            None => None,
        },
        JsonView::Str(text) => {
            let t = trimmed(text);
            match decimal_value(t) {
                Some(n) => if i64::MIN <= n <= i64::MAX {
                    epoch_point(n as i64)
                } else {
                    match rfc3339_date(t) {
                        Some(date) => Some(nanos_of(date)),
                        None => None,
                    }
                },
                None => match rfc3339_date(t) {
                    Some(date) => Some(nanos_of(date)),
                    None => None,
                },
            }
        },
        _ => None,
    }
}

pub fn parse_timestamp(value: &Json) -> (r: Option<i128>)
    ensures
        r == point_in_time(value@),
{
    match value {
        Json::Number(JsonNumber::PosInt(n)) => if *n <= 9223372036854775807 {
            epoch_timestamp(*n as i64)
        } else {
            None
        },
        Json::Number(JsonNumber::NegInt(n)) => epoch_timestamp(*n),
        Json::Number(JsonNumber::Float(bits)) => match cut_to_i64(*bits) {
            Some(n) => epoch_timestamp(n),
            None => None,
        },
        Json::Str(text) => {
            let t = trim(text);
            if let Some(n) = parse_i64(&t) {
                return epoch_timestamp(n);
            }
            match parse_rfc3339(&t) {
                Some(date) => Some(point_of(date)),
                None => None,
            }
        },
        _ => None,
    }
}

/// When a token expires.
pub open spec fn expiry(claims: JsonView) -> Option<i128> {
    match claims.get("exp"@) {
        Some(v) => point_in_time(v),
        None => None,
    }
}

fn token_expiry(claims: &Json) -> (r: Option<i128>)
    ensures
        r == expiry(claims@),
{
    match claims.get("exp") {
        Some(v) => parse_timestamp(v),
        None => None,
    }
}

/// The text of the first of three members that has one.
pub open spec fn any_member(v: JsonView, a: Seq<char>, b: Seq<char>, c: Seq<char>) -> Option<
    Seq<char>,
> {
    first_of(solid_member(v, a), first_of(solid_member(v, b), solid_member(v, c)))
}

fn object_string(object: &Json, a: &str, b: &str, c: &str) -> (r: Option<String>)
    ensures
        r.deep_view() == any_member(object@, a@, b@, c@),
{
    if let Some(text) = solid_string(object, a) {
        return Some(text);
    }
    if let Some(text) = solid_string(object, b) {
        return Some(text);
    }
    solid_string(object, c)
}

pub open spec fn flag_member(v: JsonView, key: Seq<char>) -> Option<bool> {
    match v.get(key) {
        Some(inner) => inner.flag(),
        None => None,
    }
}

/// A workspace described by an object of its own.
pub open spec fn workspace_object(v: JsonView) -> WorkspaceView {
    WorkspaceView {
        id: any_member(v, "id"@, "workspace_id"@, "account_id"@),
        name: any_member(v, "name"@, "title"@, "workspace_name"@),
        role: any_member(v, "role"@, "workspace_role"@, "workspace_role"@),
        is_default: match v.get("is_default"@) {
            Some(inner) => inner.flag(),
            None => flag_member(v, "isDefault"@),
        },
    }
}

pub struct WorkspaceClaims {
    pub id: Option<String>,
    pub name: Option<String>,
    pub role: Option<String>,
    pub is_default: Option<bool>,
}

impl View for WorkspaceClaims {
    type V = WorkspaceView;

    open spec fn view(&self) -> WorkspaceView {
        WorkspaceView {
            id: self.id.deep_view(),
            name: self.name.deep_view(),
            role: self.role.deep_view(),
            is_default: self.is_default,
        }
    }
}

pub open spec fn no_workspace() -> WorkspaceView {
    WorkspaceView { id: None, name: None, role: None, is_default: None }
}

/// What one source tells of a workspace, filled up from another.
pub open spec fn merged(a: WorkspaceView, b: WorkspaceView) -> WorkspaceView {
    WorkspaceView {
        id: first_of(a.id, b.id),
        name: first_of(a.name, b.name),
        role: first_of(a.role, b.role),
        is_default: first_of(a.is_default, b.is_default),
    }
}

fn or_string(a: Option<String>, b: Option<String>) -> (r: Option<String>)
    ensures
        r.deep_view() == first_of(a.deep_view(), b.deep_view()),
{
    match a {
        Some(x) => Some(x),
        None => b,
    }
}

impl WorkspaceClaims {
    pub fn merge(self, fallback: WorkspaceClaims) -> (r: WorkspaceClaims)
        ensures
            r@ == merged(self@, fallback@),
    {
        WorkspaceClaims {
            id: or_string(self.id, fallback.id),
            name: or_string(self.name, fallback.name),
            role: or_string(self.role, fallback.role),
            is_default: match self.is_default {
                Some(flag) => Some(flag),
                None => fallback.is_default,
            },
        }
    }
}

fn workspace_from_object(v: &Json) -> (r: WorkspaceClaims)
    ensures
        r@ == workspace_object(v@),
{
    let is_default = match v.get("is_default") {
        Some(inner) => inner.as_bool(),
        None => match v.get("isDefault") {
            Some(inner) => inner.as_bool(),
            None => None,
        },
    };
    WorkspaceClaims {
        id: object_string(v, "id", "workspace_id", "account_id"),
        name: object_string(v, "name", "title", "workspace_name"),
        role: object_string(v, "role", "workspace_role", "workspace_role"),
        is_default,
    }
}

pub open spec fn default_org_at(items: Seq<JsonView>, i: int) -> bool {
    0 <= i < items.len() && items[i] is Object && flag_member(items[i], "is_default"@) == Some(true)
}

pub open spec fn org_at(items: Seq<JsonView>, i: int) -> bool {
    0 <= i < items.len() && items[i] is Object
}

/// The organization to take: the first that says it is the default, else the first of all.
pub open spec fn organization(items: Seq<JsonView>) -> Option<JsonView> {
    if exists|i: int| default_org_at(items, i) {
        Some(
            items[choose|i: int|
                default_org_at(items, i) && forall|j: int| 0 <= j < i ==> !default_org_at(items, j)],
        )
    } else if exists|i: int| org_at(items, i) {
        Some(
            items[choose|i: int|
                org_at(items, i) && forall|j: int| 0 <= j < i ==> !org_at(items, j)],
        )
    } else {
        None
    }
}

/// What claims tell of a workspace.
pub open spec fn workspace_of(claims: JsonView) -> WorkspaceView {
    match auth_object(claims) {
        None => no_workspace(),
        Some(auth) => match auth.get("workspace"@) {
            Some(JsonView::Object(entries)) => workspace_object(JsonView::Object(entries)),
            _ => match auth.get("organizations"@) {
                Some(JsonView::Array(items)) => match organization(items) {
                    Some(org) => workspace_object(org),
                    None => no_workspace(),
                },
                _ => WorkspaceView {
                    id: any_member(
                        auth,
                        "workspace_id"@,
                        "chatgpt_workspace_id"@,
                        "chatgpt_workspace_id"@,
                    ),
                    name: any_member(
                        auth,
                        "workspace_name"@,
                        "chatgpt_workspace_name"@,
                        "workspace_title"@,
                    ),
                    role: any_member(
                        auth,
                        "workspace_role"@,
                        "workspace_role"@,
                        "workspace_role"@,
                    ),
                    is_default: flag_member(auth, "workspace_is_default"@),
                },
            },
        },
    }
}

fn pick_organization(list: &Vec<Json>, Ghost(items): Ghost<Seq<JsonView>>) -> (r: Option<usize>)
    requires
        items.len() == list.len(),
        forall|k: int| 0 <= k < list.len() ==> #[trigger] items[k] == list@[k]@,
    ensures
        match r {
            Some(i) => i < list.len() && organization(items) == Some(items[i as int]),
            None => organization(items) is None,
        },
{
    let mut i: usize = 0;
    while i < list.len()
        invariant
            i <= list.len(),
            items.len() == list.len(),
            forall|k: int| 0 <= k < list.len() ==> #[trigger] items[k] == list@[k]@,
            forall|j: int| 0 <= j < i ==> !#[trigger] default_org_at(items, j),
        decreases list.len() - i,
    {
        let item = &list[i];
        assert(items[i as int] == item@);
        let marked = match item.get("is_default") {
            Some(inner) => inner.as_bool() == Some(true),
            None => false,
        };
        if item.is_object() && marked {
            proof {
                assert(default_org_at(items, i as int));
                let c = choose|c: int|
                    default_org_at(items, c) && forall|j: int|
                        0 <= j < c ==> !default_org_at(items, j);
                assert(default_org_at(items, c) && forall|j: int|
                    0 <= j < c ==> !default_org_at(items, j));
                assert(c == i);
            }
            return Some(i);
        }
        assert(!default_org_at(items, i as int));
        i += 1;
    }
    let mut n: usize = 0;
    while n < list.len()
        invariant
            n <= list.len(),
            items.len() == list.len(),
            forall|k: int| 0 <= k < list.len() ==> #[trigger] items[k] == list@[k]@,
            forall|j: int| !#[trigger] default_org_at(items, j),
            forall|j: int| 0 <= j < n ==> !#[trigger] org_at(items, j),
        decreases list.len() - n,
    {
        assert(items[n as int] == list@[n as int]@);
        if list[n].is_object() {
            proof {
                assert(org_at(items, n as int));
                let c = choose|c: int|
                    org_at(items, c) && forall|j: int| 0 <= j < c ==> !org_at(items, j);
                assert(org_at(items, c) && forall|j: int| 0 <= j < c ==> !org_at(items, j));
                assert(c == n);
            }
            return Some(n);
        }
        assert(!org_at(items, n as int));
        n += 1;
    }
    None
}

fn workspace_from_claims(claims: &Json) -> (r: WorkspaceClaims)
    ensures
        r@ == workspace_of(claims@),
{
    let auth = match auth_claims(claims) {
        Some(auth) => auth,
        None => return WorkspaceClaims { id: None, name: None, role: None, is_default: None },
    };
    if let Some(workspace) = auth.get("workspace") {
        if workspace.is_object() {
            return workspace_from_object(workspace);
        }
    }
    if let Some(Json::Array(list)) = auth.get("organizations") {
        let ghost items = auth@.get("organizations"@)->0->Array_0;
        assert(items.len() == list.len());
        assert forall|k: int| 0 <= k < list.len() implies #[trigger] items[k] == list@[k]@ by {}
        return match pick_organization(list, Ghost(items)) {
            Some(i) => workspace_from_object(&list[i]),
            None => WorkspaceClaims { id: None, name: None, role: None, is_default: None },
        };
    }
    let is_default = match auth.get("workspace_is_default") {
        Some(inner) => inner.as_bool(),
        None => None,
    };
    WorkspaceClaims {
        id: object_string(auth, "workspace_id", "chatgpt_workspace_id", "chatgpt_workspace_id"),
        name: object_string(auth, "workspace_name", "chatgpt_workspace_name", "workspace_title"),
        role: object_string(auth, "workspace_role", "workspace_role", "workspace_role"),
        is_default,
    }
}

/// The text between the first and the second dot.
pub open spec fn second_part(s: Seq<char>) -> Option<Seq<char>> {
    match after_dot(s) {
        Some(rest) => Some(before_dot(rest)),
        None => None,
    }
}

pub open spec fn after_dot(s: Seq<char>) -> Option<Seq<char>>
    decreases s.len(),
{
    if s.len() == 0 {
        None
    } else if s[0] == '.' {
        Some(s.drop_first())
    } else {
        after_dot(s.drop_first())
    }
}

pub open spec fn before_dot(s: Seq<char>) -> Seq<char>
    decreases s.len(),
{
    if s.len() == 0 || s[0] == '.' {
        Seq::empty()
    } else {
        seq![s[0]] + before_dot(s.drop_first())
    }
}

proof fn before_dot_at(s: Seq<char>, i: int)
    requires
        0 <= i <= s.len(),
        forall|j: int| 0 <= j < i ==> s[j] != '.',
        i == s.len() || s[i] == '.',
    ensures
        before_dot(s) == s.take(i),
    decreases i,
{
    if i > 0 {
        let rest = s.drop_first();
        assert forall|j: int| 0 <= j < i - 1 implies rest[j] != '.' by {
            assert(rest[j] == s[j + 1]);
        }
        before_dot_at(rest, i - 1);
        assert(seq![s[0]] + rest.take(i - 1) =~= s.take(i));
    } else {
        assert(s.take(0) =~= Seq::empty());
    }
}

fn payload_part(token: &str) -> (r: Option<String>)
    ensures
        r.deep_view() == second_part(token@),
{
    let chars = chars_of(token);
    let mut i: usize = 0;
    assert(token@.skip(0) =~= token@);
    while i < chars.len() && chars[i] != '.'
        invariant
            i <= chars.len(),
            chars@ == token@,
            after_dot(token@) == after_dot(token@.skip(i as int)),
        decreases chars.len() - i,
    {
        assert(token@.skip(i as int).drop_first() =~= token@.skip(i as int + 1));
        i += 1;
    }
    if i == chars.len() {
        return None;
    }
    let ghost rest = token@.skip(i as int + 1);
    assert(token@.skip(i as int).drop_first() =~= rest);
    let start: usize = i + 1;
    let mut n: usize = start;
    while n < chars.len() && chars[n] != '.'
        invariant
            start <= n <= chars.len(),
            chars@ == token@,
            rest == token@.skip(start as int),
            forall|j: int| 0 <= j < n - start ==> rest[j] != '.',
        decreases chars.len() - n,
    {
        n += 1;
    }
    proof {
        before_dot_at(rest, n as int - start);
        assert(chars@.subrange(start as int, n as int) =~= rest.take(n as int - start));
    }
    Some(slice_of(&chars, start, n))
}

/// The claims of a token: the JSON of its second part, which is URL-safe base64 with or without
/// padding.
pub open spec fn jwt_claims(token: Seq<char>) -> Option<JsonView> {
    match second_part(trimmed(token)) {
        None => None,
        Some(payload) => match first_of(
            url_base64_bytes(payload),
            padded_url_base64_bytes(payload),
        ) {
            Some(bytes) => json_of_bytes(bytes),
            None => None,
        },
    }
}

pub fn decode_jwt_payload(token: &str) -> (r: Option<Json>)
    ensures
        crate::json::json_opt(r) == jwt_claims(token@),
{
    let payload = match payload_part(&trim(token)) {
        Some(payload) => payload,
        None => return None,
    };
    let bytes = match decode_url_base64(&payload) {
        Some(bytes) => bytes,
        None => match decode_padded_url_base64(&payload) {
            Some(bytes) => bytes,
            None => return None,
        },
    };
    parse_bytes(&bytes)
}

pub open spec fn or_null(v: Option<JsonView>) -> JsonView {
    match v {
        Some(x) => x,
        None => JsonView::Null,
    }
}

pub open spec fn text_or(v: Option<Seq<char>>, default: Seq<char>) -> Seq<char> {
    match v {
        Some(x) => x,
        None => default,
    }
}

/// What the claims of the two tokens tell of an account; the identity token goes first, but for the
/// account that the file itself names.
pub open spec fn claims_of(
    account: Option<Seq<char>>,
    id: JsonView,
    access: JsonView,
) -> ClaimsView {
    let chatgpt_account = first_of(
        solid(account),
        first_of(claim(id, "chatgpt_account_id"@), claim(access, "chatgpt_account_id"@)),
    );
    let workspace = merged(workspace_of(id), workspace_of(access));
    ClaimsView {
        account: chatgpt_account,
        email: text_or(first_of(email_of(id), email_of(access)), "unknown@example.com"@),
        plan: text_or(
            first_of(claim(id, "chatgpt_plan_type"@), claim(access, "chatgpt_plan_type"@)),
            "unknown"@,
        ),
        access_expires_at: expiry(access),
        id_expires_at: expiry(id),
        workspace: WorkspaceView { id: first_of(workspace.id, chatgpt_account), ..workspace },
    }
}

/// What tokens tell of an account, given the claims that they hold.
pub fn claims_from_payloads(account_id: &Option<String>, id: &Json, access: &Json) -> (r: AuthClaims)
    ensures
        r@ == claims_of(account_id.deep_view(), id@, access@),
{
    let account_from_claims = or_string(
        claim_string(id, "chatgpt_account_id"),
        claim_string(access, "chatgpt_account_id"),
    );
    let plan = or_string(
        claim_string(id, "chatgpt_plan_type"),
        claim_string(access, "chatgpt_plan_type"),
    );
    let email = or_string(email_claim(id), email_claim(access));
    let workspace = workspace_from_claims(id).merge(workspace_from_claims(access));
    let chatgpt_account_id = or_string(non_empty_owned(account_id), account_from_claims);
    AuthClaims {
        workspace_id: or_string(workspace.id, clone_opt(&chatgpt_account_id)),
        workspace_name: workspace.name,
        workspace_role: workspace.role,
        workspace_is_default: workspace.is_default,
        chatgpt_account_id,
        email: match email {
            Some(text) => text,
            None => "unknown@example.com".to_owned(),
        },
        plan_type: match plan {
            Some(text) => text,
            None => "unknown".to_owned(),
        },
        access_token_expires_at: token_expiry(access),
        id_token_expires_at: token_expiry(id),
    }
}

/// What the tokens of a credential file tell of its account.
pub open spec fn tokens_claims(t: TokensView) -> ClaimsView {
    claims_of(t.account, or_null(jwt_claims(t.id)), or_null(jwt_claims(t.access)))
}

pub fn claims_from_auth(auth: &AuthFile) -> (r: AuthClaims)
    ensures
        r@ == tokens_claims(auth@.tokens),
{
    let id = match decode_jwt_payload(&auth.tokens.id_token) {
        Some(v) => v,
        None => Json::Null,
    };
    let access = match decode_jwt_payload(&auth.tokens.access_token) {
        Some(v) => v,
        None => Json::Null,
    };
    claims_from_payloads(&auth.tokens.account_id, &id, &access)
}

/// The values of the entries that have one of three keys.
pub open spec fn named(
    entries: Seq<(Seq<char>, JsonView)>,
    a: Seq<char>,
    b: Seq<char>,
    c: Seq<char>,
) -> Seq<JsonView>
    decreases entries.len(),
{
    if entries.len() == 0 {
        Seq::empty()
    } else {
        let rest = named(entries.drop_last(), a, b, c);
        let key = entries.last().0;
        if key == a || key == b || key == c {
            rest.push(entries.last().1)
        } else {
            rest
        }
    }
}

/// A field of a record: in an object under one of its names, under one only; in a list by its
/// place. `Err` where the value is no record, or names the field twice.
pub open spec fn field(v: JsonView, index: int, a: Seq<char>, b: Seq<char>, c: Seq<char>) -> Result<
    Option<JsonView>,
    (),
> {
    match v {
        JsonView::Object(entries) => {
            let found = named(entries, a, b, c);
            if found.len() == 0 {
                Ok(None)
            } else if found.len() == 1 {
                Ok(Some(found[0]))
            } else {
                Err(())
            }
        },
        JsonView::Array(items) => if index < items.len() {
            Ok(Some(items[index]))
        } else {
            Ok(None)
        },
        _ => Err(()),
    }
}

pub(crate) fn record_field<'a>(v: &'a Json, index: usize, a: &str, b: &str, c: &str) -> (r: Result<
    Option<&'a Json>,
    (),
>)
    ensures
        match r {
            Ok(found) => field(v@, index as int, a@, b@, c@) == Ok::<Option<JsonView>, ()>(
                opt_view(found),
            ),
            Err(_) => field(v@, index as int, a@, b@, c@) is Err,
        },
{
    match v {
        Json::Object(entries) => {
            let ghost all = Seq::new(entries@.len(), |k: int| (entries@[k].0@, entries@[k].1@));
            assert(v@->Object_0 =~= all);
            let mut found: Option<&'a Json> = None;
            let mut i: usize = 0;
            assert(all.take(0) =~= Seq::empty());
            while i < entries.len()
                invariant
                    i <= entries.len(),
                    all.len() == entries@.len(),
                    forall|k: int|
                        0 <= k < all.len() ==> #[trigger] all[k] == (entries@[k].0@, entries@[k].1@),
                    v@ == JsonView::Object(all),
                    match found {
                        None => named(all.take(i as int), a@, b@, c@).len() == 0,
                        Some(x) => named(all.take(i as int), a@, b@, c@) == seq![x@],
                    },
                decreases entries.len() - i,
            {
                proof {
                    assert(all.take(i as int + 1).drop_last() =~= all.take(i as int));
                }
                let key = &entries[i].0;
                if same(key, a) || same(key, b) || same(key, c) {
                    if found.is_some() {
                        proof {
                            named_grows(all, i as int + 1, a@, b@, c@);
                        }
                        return Err(());
                    }
                    found = Some(&entries[i].1);
                    assert(named(all.take(i as int + 1), a@, b@, c@) =~= seq![entries@[i as int].1@]);
                }
                i += 1;
            }
            assert(all.take(all.len() as int) =~= all);
            Ok(found)
        },
        Json::Array(items) => if index < items.len() {
            Ok(Some(&items[index]))
        } else {
            Ok(None)
        },
        _ => Err(()),
    }
}

proof fn named_grows(
    entries: Seq<(Seq<char>, JsonView)>,
    n: int,
    a: Seq<char>,
    b: Seq<char>,
    c: Seq<char>,
)
    requires
        0 <= n <= entries.len(),
    ensures
        named(entries.take(n), a, b, c).len() <= named(entries, a, b, c).len(),
    decreases entries.len(),
{
    if n < entries.len() {
        named_grows(entries.drop_last(), n, a, b, c);
        assert(entries.drop_last().take(n) =~= entries.take(n));
    } else {
        assert(entries.take(n) =~= entries);
    }
}

/// A field that is a text.
pub open spec fn text_field(f: Result<Option<JsonView>, ()>) -> Option<Seq<char>> {
    match f {
        Ok(Some(JsonView::Str(text))) => Some(text),
        _ => None,
    }
}

/// A field that may be absent or null; the outer `None` is a field that does not fit.
pub open spec fn optional_field(f: Result<Option<JsonView>, ()>) -> Option<Option<Seq<char>>> {
    match f {
        Ok(None) => Some(None),
        Ok(Some(JsonView::Null)) => Some(None),
        Ok(Some(JsonView::Str(text))) => Some(Some(text)),
        _ => None,
    }
}

/// A date that may be absent or null; the outer `None` is a field that does not fit.
pub open spec fn date_field(f: Result<Option<JsonView>, ()>) -> Option<Option<i128>> {
    match f {
        Ok(None) => Some(None),
        Ok(Some(JsonView::Null)) => Some(None),
        Ok(Some(JsonView::Str(text))) => match text_date(text) {
            Some(date) => Some(Some(nanos_of(date))),
            None => None,
        },
        _ => None,
    }
}

fn read_text_field(f: Result<Option<&Json>, ()>) -> (r: Option<String>)
    ensures
        r.deep_view() == match f {
            Ok(found) => text_field(Ok(opt_view(found))),
            Err(_) => None,
        },
{
    match f {
        Ok(Some(Json::Str(text))) => Some(text.clone()),
        _ => None,
    }
}

pub(crate) fn read_optional_field(f: Result<Option<&Json>, ()>) -> (r: Option<Option<String>>)
    ensures
        r.deep_view() == match f {
            Ok(found) => optional_field(Ok(opt_view(found))),
            Err(_) => None,
        },
{
    match f {
        Ok(None) => Some(None),
        Ok(Some(Json::Null)) => Some(None),
        Ok(Some(Json::Str(text))) => Some(Some(text.clone())),
        _ => None,
    }
}

fn read_date_field(f: Result<Option<&Json>, ()>) -> (r: Option<Option<i128>>)
    ensures
        r == match f {
            Ok(found) => date_field(Ok(opt_view(found))),
            Err(_) => None,
        },
{
    match f {
        Ok(None) => Some(None),
        Ok(Some(Json::Null)) => Some(None),
        Ok(Some(Json::Str(text))) => match parse_date(text) {
            Some(date) => Some(Some(point_of(date))),
            None => None,
        },
        _ => None,
    }
}

/// A list is no record of more fields than there are.
pub open spec fn short_enough(v: JsonView, fields: int) -> bool {
    v is Array ==> v->Array_0.len() <= fields
}

fn is_short(v: &Json, fields: usize) -> (r: bool)
    ensures
        r == short_enough(v@, fields as int),
{
    match v {
        Json::Array(items) => items.len() <= fields,
        _ => true,
    }
}

/// The tokens of a record, where it is one.
pub open spec fn tokens_of(v: JsonView) -> Option<TokensView> {
    let id = text_field(field(v, 0, "idToken"@, "id_token"@, "id_token"@));
    let access = text_field(field(v, 1, "accessToken"@, "access_token"@, "access_token"@));
    let refresh = text_field(field(v, 2, "refreshToken"@, "refresh_token"@, "refresh_token"@));
    let account = optional_field(field(v, 3, "accountId"@, "account_id"@, "account_id"@));
    if short_enough(v, 4) && id is Some && access is Some && refresh is Some && account is Some {
        Some(
            TokensView {
                id: id->0,
                access: access->0,
                refresh: refresh->0,
                account: account->0,
            },
        )
    } else {
        None
    }
}

fn read_tokens(v: &Json) -> (r: Option<AuthTokens>)
    ensures
        match r {
            Some(t) => tokens_of(v@) == Some(t@),
            None => tokens_of(v@) is None,
        },
{
    let id = read_text_field(record_field(v, 0, "idToken", "id_token", "id_token"));
    let access = read_text_field(
        record_field(v, 1, "accessToken", "access_token", "access_token"),
    );
    let refresh = read_text_field(
        record_field(v, 2, "refreshToken", "refresh_token", "refresh_token"),
    );
    let account = read_optional_field(
        record_field(v, 3, "accountId", "account_id", "account_id"),
    );
    if !is_short(v, 4) {
        return None;
    }
    match (id, access, refresh, account) {
        (Some(id_token), Some(access_token), Some(refresh_token), Some(account_id)) => Some(
            AuthTokens { id_token, access_token, refresh_token, account_id },
        ),
        _ => None,
    }
}

/// The contents of a credential file, where it is one.
pub open spec fn auth_of(v: JsonView) -> Option<AuthView> {
    let key = optional_field(field(v, 0, "openai_api_key"@, "OPENAI_API_KEY"@, "OPENAI_API_KEY"@));
    let tokens = match field(v, 1, "tokens"@, "tokens"@, "tokens"@) {
        Ok(Some(inner)) => tokens_of(inner),
        _ => None,
    };
    let refreshed = date_field(
        field(v, 2, "lastRefreshAt"@, "last_refresh_at"@, "last_refresh"@),
    );
    if short_enough(v, 3) && key is Some && tokens is Some && refreshed is Some {
        Some(
            AuthView { api_key: key->0, tokens: tokens->0, last_refresh_at: refreshed->0 },
        )
    } else {
        None
    }
}

fn read_auth(v: &Json) -> (r: Option<AuthFile>)
    ensures
        match r {
            Some(a) => auth_of(v@) == Some(a@),
            None => auth_of(v@) is None,
        },
{
    let key = read_optional_field(
        record_field(v, 0, "openai_api_key", "OPENAI_API_KEY", "OPENAI_API_KEY"),
    );
    let tokens = match record_field(v, 1, "tokens", "tokens", "tokens") {
        Ok(Some(inner)) => read_tokens(inner),
        _ => None,
    };
    let refreshed = read_date_field(
        record_field(v, 2, "lastRefreshAt", "last_refresh_at", "last_refresh"),
    );
    if !is_short(v, 3) {
        return None;
    }
    match (key, tokens, refreshed) {
        (Some(openai_api_key), Some(tokens), Some(last_refresh_at)) => Some(
            AuthFile { openai_api_key, tokens, last_refresh_at },
        ),
        _ => None,
    }
}

pub open spec fn blank(text: Seq<char>) -> bool {
    trimmed(text).len() == 0
}

fn is_blank(text: &str) -> (r: bool)
    ensures
        r == blank(text@),
{
    trim(text).as_str().is_empty()
}

/// What a credential file holds, or why it is refused.
pub open spec fn parsed_auth(v: JsonView) -> Result<AuthView, AuthFileError> {
    match auth_of(v) {
        None => Err(AuthFileError::InvalidPayload),
        Some(a) => if blank(a.tokens.access) || blank(a.tokens.refresh) || blank(a.tokens.id) {
            Err(AuthFileError::MissingTokens)
        } else {
            Ok(a)
        },
    }
}

/// Reads a credential file: its tokens, and what they claim.
pub fn parse_auth_json(value: &Json) -> (r: Result<(AuthFile, AuthClaims), AuthFileError>)
    ensures
        match r {
            Ok((auth, claims)) => parsed_auth(value@) == Ok::<AuthView, AuthFileError>(auth@)
                && claims@ == tokens_claims(auth@.tokens),
            Err(e) => parsed_auth(value@) == Err::<AuthView, AuthFileError>(e),
        },
{
    let auth = match read_auth(value) {
        Some(auth) => auth,
        None => return Err(AuthFileError::InvalidPayload),
    };
    let claims = claims_from_auth(&auth);
    if is_blank(&auth.tokens.access_token) || is_blank(&auth.tokens.refresh_token) || is_blank(
        &auth.tokens.id_token,
    ) {
        return Err(AuthFileError::MissingTokens);
    }
    Ok((auth, claims))
}

/// Whether a value looks like the credentials of an OAuth provider.
pub open spec fn is_provider(v: JsonView) -> bool {
    v is Object && ((match v.get("type"@) {
        Some(JsonView::Str(text)) => lower(text) == lower("oauth"@),
        _ => false,
    }) || v.get("access"@) is Some || v.get("refresh"@) is Some)
}

fn is_opencode_provider(value: &Json) -> (r: bool)
    ensures
        r == is_provider(value@),
{
    if !value.is_object() {
        return false;
    }
    let oauth = match value.get("type") {
        Some(Json::Str(text)) => same_ignoring_case(text, "oauth"),
        _ => false,
    };
    oauth || value.get("access").is_some() || value.get("refresh").is_some()
}

pub open spec fn provider_at(entries: Seq<(Seq<char>, JsonView)>, i: int) -> bool {
    0 <= i < entries.len() && is_provider(entries[i].1)
}

/// A member that looks like a provider.
pub open spec fn provider_named(v: JsonView, key: Seq<char>) -> Option<JsonView> {
    match v.get(key) {
        Some(inner) => if is_provider(inner) {
            Some(inner)
        } else {
            None
        },
        None => None,
    }
}

/// The provider of a file: the file itself, else its `openai`, else its `codex`, else the first of
/// its members that looks like one.
pub open spec fn provider_of(v: JsonView) -> Option<JsonView> {
    if is_provider(v) {
        Some(v)
    } else if provider_named(v, "openai"@) is Some {
        provider_named(v, "openai"@)
    } else if provider_named(v, "codex"@) is Some {
        provider_named(v, "codex"@)
    } else {
        match v {
            JsonView::Object(entries) => if exists|i: int| provider_at(entries, i) {
                Some(
                    entries[choose|i: int|
                        provider_at(entries, i) && forall|j: int|
                            0 <= j < i ==> !provider_at(entries, j)].1,
                )
            } else {
                None
            },
            _ => None,
        }
    }
}

fn find_opencode_provider(value: &Json) -> (r: Option<&Json>)
    ensures
        opt_view(r) == provider_of(value@),
{
    if is_opencode_provider(value) {
        return Some(value);
    }
    if let Some(inner) = value.get("openai") {
        if is_opencode_provider(inner) {
            return Some(inner);
        }
    }
    if let Some(inner) = value.get("codex") {
        if is_opencode_provider(inner) {
            return Some(inner);
        }
    }
    match value {
        Json::Object(entries) => {
            let ghost all = Seq::new(entries@.len(), |k: int| (entries@[k].0@, entries@[k].1@));
            assert(value@->Object_0 =~= all);
            let mut i: usize = 0;
            while i < entries.len()
                invariant
                    i <= entries.len(),
                    all.len() == entries@.len(),
                    forall|k: int|
                        0 <= k < all.len() ==> #[trigger] all[k] == (entries@[k].0@, entries@[k].1@),
                    value@ == JsonView::Object(all),
                    !is_provider(value@),
                    provider_named(value@, "openai"@) is None,
                    provider_named(value@, "codex"@) is None,
                    forall|j: int| 0 <= j < i ==> !#[trigger] provider_at(all, j),
                decreases entries.len() - i,
            {
                assert(all[i as int].1 == entries@[i as int].1@);
                if is_opencode_provider(&entries[i].1) {
                    proof {
                        assert(provider_at(all, i as int));
                        let c = choose|c: int|
                            provider_at(all, c) && forall|j: int|
                                0 <= j < c ==> !provider_at(all, j);
                        assert(provider_at(all, c) && forall|j: int|
                            0 <= j < c ==> !provider_at(all, j));
                        assert(c == i);
                    }
                    return Some(&entries[i].1);
                }
                assert(!provider_at(all, i as int));
                i += 1;
            }
            None
        },
        _ => None,
    }
}

/// The credentials of a provider: its tokens, and the expiry that it states.
pub struct ProviderView {
    pub access: Seq<char>,
    pub refresh: Seq<char>,
    pub account: Option<Seq<char>>,
    pub expires: Option<JsonView>,
    pub id: Option<Seq<char>>,
}

/// A text field that is empty where it is absent; `None` where it does not fit.
pub open spec fn text_or_empty(f: Result<Option<JsonView>, ()>) -> Option<Seq<char>> {
    match f {
        Ok(None) => Some(Seq::empty()),
        Ok(Some(JsonView::Str(text))) => Some(text),
        _ => None,
    }
}

pub open spec fn present(v: Option<JsonView>) -> Option<JsonView> {
    match v {
        Some(JsonView::Null) => None,
        other => other,
    }
}

/// The credentials of a provider's record, where it is one.
pub open spec fn provider_record(v: JsonView) -> Option<ProviderView> {
    let kind = optional_field(field(v, 0, "type"@, "type"@, "type"@));
    let access = text_or_empty(field(v, 1, "access"@, "access"@, "access"@));
    let refresh = text_or_empty(field(v, 2, "refresh"@, "refresh"@, "refresh"@));
    let account = optional_field(field(v, 3, "accountId"@, "account_id"@, "account_id"@));
    let expires = field(v, 4, "expires"@, "expires"@, "expires"@);
    let id = optional_field(field(v, 5, "idToken"@, "id_token"@, "id"@));
    if short_enough(v, 6) && kind is Some && access is Some && refresh is Some && account is Some
        && expires is Ok && id is Some {
        Some(
            ProviderView {
                access: access->0,
                refresh: refresh->0,
                account: account->0,
                expires: present(expires->Ok_0),
                id: id->0,
            },
        )
    } else {
        None
    }
}

struct OpenCodeAuthRecord {
    access: String,
    refresh: String,
    account_id: Option<String>,
    explicit_expiry: Option<i128>,
    id_token: Option<String>,
}

pub open spec fn point_opt(v: Option<JsonView>) -> Option<i128> {
    match v {
        Some(x) => point_in_time(x),
        None => None,
    }
}

fn read_text_or_empty(f: Result<Option<&Json>, ()>) -> (r: Option<String>)
    ensures
        r.deep_view() == match f {
            Ok(found) => text_or_empty(Ok(opt_view(found))),
            Err(_) => None,
        },
{
    match f {
        Ok(None) => Some(String::new()),
        Ok(Some(Json::Str(text))) => Some(text.clone()),
        _ => None,
    }
}

fn read_provider(v: &Json) -> (r: Option<OpenCodeAuthRecord>)
    ensures
        match r {
            Some(p) => provider_record(v@) matches Some(want) && p.access@ == want.access
                && p.refresh@ == want.refresh && p.account_id.deep_view() == want.account
                && p.explicit_expiry == point_opt(want.expires) && p.id_token.deep_view()
                == want.id,
            None => provider_record(v@) is None,
        },
{
    let kind = read_optional_field(record_field(v, 0, "type", "type", "type"));
    let access = read_text_or_empty(record_field(v, 1, "access", "access", "access"));
    let refresh = read_text_or_empty(record_field(v, 2, "refresh", "refresh", "refresh"));
    let account = read_optional_field(
        record_field(v, 3, "accountId", "account_id", "account_id"),
    );
    let expires = match record_field(v, 4, "expires", "expires", "expires") {
        Ok(found) => match found {
            Some(inner) => match inner {
                Json::Null => None,
                _ => parse_timestamp(inner),
            },
            None => None,
        },
        Err(_) => return None,
    };
    let id = read_optional_field(record_field(v, 5, "idToken", "id_token", "id"));
    if !is_short(v, 6) {
        return None;
    }
    match (kind, access, refresh, account, id) {
        (Some(_), Some(access), Some(refresh), Some(account_id), Some(id_token)) => Some(
            OpenCodeAuthRecord {
                access,
                refresh,
                account_id,
                explicit_expiry: expires,
                id_token,
            },
        ),
        _ => None,
    }
}

/// The tokens of a provider: where it has no identity token, the access token stands in.
pub open spec fn provider_tokens(p: ProviderView) -> TokensView {
    TokensView {
        id: match p.id {
            Some(t) => if blank(t) {
                p.access
            } else {
                t
            },
            None => p.access,
        },
        access: p.access,
        refresh: p.refresh,
        account: solid(p.account),
    }
}

/// The provider that a file holds, or why it is refused.
pub open spec fn parsed_provider(v: JsonView) -> Result<ProviderView, AuthFileError> {
    match provider_of(v) {
        None => Err(AuthFileError::NoProvider),
        Some(inner) => match provider_record(inner) {
            None => Err(AuthFileError::InvalidProvider),
            Some(p) => if blank(p.access) || blank(p.refresh) {
                Err(AuthFileError::MissingProviderTokens)
            } else {
                Ok(p)
            },
        },
    }
}

/// What a provider's tokens claim; the expiry that the provider states goes before that of its
/// access token.
pub open spec fn provider_claims(p: ProviderView) -> ClaimsView {
    let claims = tokens_claims(provider_tokens(p));
    match point_opt(p.expires) {
        Some(at) => ClaimsView { access_expires_at: Some(at), ..claims },
        None => claims,
    }
}

/// Reads an OpenCode file, or one OAuth provider's record.
pub fn parse_opencode_auth_json(value: &Json) -> (r: Result<(AuthFile, AuthClaims), AuthFileError>)
    ensures
        match r {
            Ok((auth, claims)) => parsed_provider(value@) matches Ok(p) && auth@ == (AuthView {
                api_key: None,
                tokens: provider_tokens(p),
                last_refresh_at: None,
            }) && claims@ == provider_claims(p),
            Err(e) => parsed_provider(value@) == Err::<ProviderView, AuthFileError>(e),
        },
{
    let provider = match find_opencode_provider(value) {
        Some(provider) => provider,
        None => return Err(AuthFileError::NoProvider),
    };
    let record = match read_provider(provider) {
        Some(record) => record,
        None => return Err(AuthFileError::InvalidProvider),
    };
    if is_blank(&record.access) || is_blank(&record.refresh) {
        return Err(AuthFileError::MissingProviderTokens);
    }
    let id_token = match &record.id_token {
        Some(token) => if is_blank(token) {
            record.access.clone()
        } else {
            token.clone()
        },
        None => record.access.clone(),
    };
    let auth = AuthFile {
        openai_api_key: None,
        tokens: AuthTokens {
            id_token,
            access_token: record.access,
            refresh_token: record.refresh,
            account_id: non_empty_owned(&record.account_id),
        },
        last_refresh_at: None,
    };
    let mut claims = claims_from_auth(&auth);
    if record.explicit_expiry.is_some() {
        claims.access_token_expires_at = record.explicit_expiry;
    }
    Ok((auth, claims))
}

/// Whatever is read from a credential file has all three tokens.
pub proof fn accepted_files_have_tokens(v: JsonView)
    ensures
        parsed_auth(v) matches Ok(a) ==> !blank(a.tokens.access) && !blank(a.tokens.refresh)
            && !blank(a.tokens.id),
        parsed_provider(v) matches Ok(p) ==> !blank(provider_tokens(p).access) && !blank(
            provider_tokens(p).refresh,
        ) && !blank(provider_tokens(p).id),
{
}

proof fn named_values_are_of_entries(
    entries: Seq<(Seq<char>, JsonView)>,
    a: Seq<char>,
    b: Seq<char>,
    c: Seq<char>,
    i: int,
)
    ensures
        0 <= i < entries.len() && (entries[i].0 == a || entries[i].0 == b || entries[i].0 == c)
            ==> named(entries, a, b, c).contains(entries[i].1),
        0 <= i < named(entries, a, b, c).len() ==> exists|k: int|
            0 <= k < entries.len() && ((#[trigger] entries[k]).0 == a || entries[k].0 == b
                || entries[k].0 == c) && entries[k].1 == named(entries, a, b, c)[i],
    decreases entries.len(),
{
    if entries.len() > 0 {
        let rest = entries.drop_last();
        let found = named(rest, a, b, c);
        let all = named(entries, a, b, c);
        let last = entries.len() - 1;
        named_values_are_of_entries(rest, a, b, c, i);
        if 0 <= i < rest.len() && (entries[i].0 == a || entries[i].0 == b || entries[i].0 == c) {
            assert(rest[i] == entries[i]);
            let j = found.index_of(rest[i].1);
            assert(all[j] == entries[i].1);
        }
        if i == last && (entries[i].0 == a || entries[i].0 == b || entries[i].0 == c) {
            assert(all[found.len() as int] == entries[i].1);
        }
        if 0 <= i < found.len() {
            let k = choose|k: int|
                0 <= k < rest.len() && ((#[trigger] rest[k]).0 == a || rest[k].0 == b || rest[k].0
                    == c) && rest[k].1 == found[i];
            assert(entries[k] == rest[k]);
            assert(all[i] == found[i]);
        } else if i == found.len() && i < all.len() {
            assert(entries[last].1 == all[i]);
        }
    }
}

proof fn one_named_value(
    entries: Seq<(Seq<char>, JsonView)>,
    a: Seq<char>,
    b: Seq<char>,
    c: Seq<char>,
    i: int,
)
    requires
        0 <= i < entries.len(),
        entries[i].0 == a || entries[i].0 == b || entries[i].0 == c,
        forall|k: int|
            0 <= k < entries.len() && k != i ==> (#[trigger] entries[k]).0 != a && entries[k].0 != b
                && entries[k].0 != c,
    ensures
        named(entries, a, b, c) == seq![entries[i].1],
    decreases entries.len(),
{
    let rest = entries.drop_last();
    if i == entries.len() - 1 {
        no_named_value(rest, a, b, c);
        assert(named(entries, a, b, c) =~= seq![entries[i].1]);
    } else {
        assert forall|k: int| 0 <= k < rest.len() && k != i implies (#[trigger] rest[k]).0 != a
            && rest[k].0 != b && rest[k].0 != c by {
            assert(rest[k] == entries[k]);
        }
        one_named_value(rest, a, b, c, i);
        assert(entries[entries.len() - 1] == entries.last());
    }
}

proof fn no_named_value(
    entries: Seq<(Seq<char>, JsonView)>,
    a: Seq<char>,
    b: Seq<char>,
    c: Seq<char>,
)
    requires
        forall|k: int|
            0 <= k < entries.len() ==> (#[trigger] entries[k]).0 != a && entries[k].0 != b
                && entries[k].0 != c,
    ensures
        named(entries, a, b, c).len() == 0,
    decreases entries.len(),
{
    if entries.len() > 0 {
        assert(entries[entries.len() - 1] == entries.last());
        no_named_value(entries.drop_last(), a, b, c);
    }
}

/// A field of an object is the one member that has any of its names; two such members are refused, and
/// without one the field is absent.
pub proof fn fields_are_members(
    v: JsonView,
    index: int,
    a: Seq<char>,
    b: Seq<char>,
    c: Seq<char>,
    found: JsonView,
)
    requires
        v is Object,
    ensures
        field(v, index, a, b, c) == Ok::<Option<JsonView>, ()>(Some(found)) ==> {
            &&& v.get(a) == Some(found) || v.get(b) == Some(found) || v.get(c) == Some(found)
            &&& v.get(a) matches Some(x) ==> x == found
            &&& v.get(b) matches Some(x) ==> x == found
            &&& v.get(c) matches Some(x) ==> x == found
        },
        field(v, index, a, b, c) == Ok::<Option<JsonView>, ()>(None) ==> v.get(a) is None && v.get(
            b,
        ) is None && v.get(c) is None,
        v.get(a) is None && v.get(b) is None && v.get(c) is None ==> field(v, index, a, b, c)
            == Ok::<Option<JsonView>, ()>(None),
{
    let entries = v->Object_0;
    let list = named(entries, a, b, c);
    members_are_first_entries(v, a);
    members_are_first_entries(v, b);
    members_are_first_entries(v, c);
    assert forall|i: int|
        0 <= i < entries.len() && ((#[trigger] entries[i]).0 == a || entries[i].0 == b || entries[i].0
            == c) implies list.contains(entries[i].1) by {
        named_values_are_of_entries(entries, a, b, c, i);
    }
    if list.len() > 0 {
        named_values_are_of_entries(entries, a, b, c, 0);
    }
}

/// A field of a list is the value at its place.
pub proof fn fields_have_places(
    items: Seq<JsonView>,
    index: int,
    a: Seq<char>,
    b: Seq<char>,
    c: Seq<char>,
)
    requires
        0 <= index,
    ensures
        index < items.len() ==> field(JsonView::Array(items), index, a, b, c) == Ok::<
            Option<JsonView>,
            (),
        >(Some(items[index])),
        index >= items.len() ==> field(JsonView::Array(items), index, a, b, c) == Ok::<
            Option<JsonView>,
            (),
        >(None),
{
}

/// Each token that is read from an object of tokens is the text under its own name: the identity token
/// under either name of it, and so for the access token, the refresh token and the account.
pub proof fn tokens_are_read_by_name(tokens: JsonView, t: TokensView)
    requires
        tokens is Object,
        tokens_of(tokens) == Some(t),
    ensures
        tokens.get("idToken"@) == Some(JsonView::Str(t.id)) || tokens.get("id_token"@) == Some(
            JsonView::Str(t.id),
        ),
        tokens.get("idToken"@) matches Some(x) ==> x == JsonView::Str(t.id),
        tokens.get("id_token"@) matches Some(x) ==> x == JsonView::Str(t.id),
        tokens.get("accessToken"@) == Some(JsonView::Str(t.access)) || tokens.get("access_token"@)
            == Some(JsonView::Str(t.access)),
        tokens.get("accessToken"@) matches Some(x) ==> x == JsonView::Str(t.access),
        tokens.get("access_token"@) matches Some(x) ==> x == JsonView::Str(t.access),
        tokens.get("refreshToken"@) == Some(JsonView::Str(t.refresh)) || tokens.get(
            "refresh_token"@,
        ) == Some(JsonView::Str(t.refresh)),
        tokens.get("refreshToken"@) matches Some(x) ==> x == JsonView::Str(t.refresh),
        tokens.get("refresh_token"@) matches Some(x) ==> x == JsonView::Str(t.refresh),
        t.account matches Some(id) ==> tokens.get("accountId"@) == Some(JsonView::Str(id))
            || tokens.get("account_id"@) == Some(JsonView::Str(id)),
        tokens.get("accountId"@) matches Some(JsonView::Str(id)) ==> t.account == Some(id),
        tokens.get("account_id"@) matches Some(JsonView::Str(id)) ==> t.account == Some(id),
{
    let id = field(tokens, 0, "idToken"@, "id_token"@, "id_token"@);
    let access = field(tokens, 1, "accessToken"@, "access_token"@, "access_token"@);
    let refresh = field(tokens, 2, "refreshToken"@, "refresh_token"@, "refresh_token"@);
    let account = field(tokens, 3, "accountId"@, "account_id"@, "account_id"@);
    fields_are_members(tokens, 0, "idToken"@, "id_token"@, "id_token"@, id->Ok_0->0);
    fields_are_members(tokens, 1, "accessToken"@, "access_token"@, "access_token"@, access->Ok_0->0);
    fields_are_members(
        tokens,
        2,
        "refreshToken"@,
        "refresh_token"@,
        "refresh_token"@,
        refresh->Ok_0->0,
    );
    fields_are_members(tokens, 3, "accountId"@, "account_id"@, "account_id"@, account->Ok_0->0);
}

/// The tokens of a credential file that is accepted are those of its object of tokens, each read by
/// its own name; the key and the time of the last refresh are those under their own names.
pub proof fn accepted_files_give_their_tokens(v: JsonView, tokens: JsonView, a: AuthView)
    requires
        v is Object,
        v.get("tokens"@) == Some(tokens),
        tokens is Object,
        parsed_auth(v) == Ok::<AuthView, AuthFileError>(a),
    ensures
        tokens.get("refreshToken"@) == Some(JsonView::Str(a.tokens.refresh)) || tokens.get(
            "refresh_token"@,
        ) == Some(JsonView::Str(a.tokens.refresh)),
        tokens.get("accessToken"@) == Some(JsonView::Str(a.tokens.access)) || tokens.get(
            "access_token"@,
        ) == Some(JsonView::Str(a.tokens.access)),
        tokens.get("idToken"@) == Some(JsonView::Str(a.tokens.id)) || tokens.get("id_token"@)
            == Some(JsonView::Str(a.tokens.id)),
        tokens.get("refreshToken"@) matches Some(x) ==> x == JsonView::Str(a.tokens.refresh),
        tokens.get("refresh_token"@) matches Some(x) ==> x == JsonView::Str(a.tokens.refresh),
        tokens.get("accessToken"@) matches Some(x) ==> x == JsonView::Str(a.tokens.access),
        tokens.get("access_token"@) matches Some(x) ==> x == JsonView::Str(a.tokens.access),
        tokens.get("idToken"@) matches Some(x) ==> x == JsonView::Str(a.tokens.id),
        tokens.get("id_token"@) matches Some(x) ==> x == JsonView::Str(a.tokens.id),
        tokens.get("accountId"@) matches Some(JsonView::Str(id)) ==> a.tokens.account == Some(id),
        tokens.get("account_id"@) matches Some(JsonView::Str(id)) ==> a.tokens.account == Some(id),
        a.api_key matches Some(key) ==> v.get("openai_api_key"@) == Some(JsonView::Str(key))
            || v.get("OPENAI_API_KEY"@) == Some(JsonView::Str(key)),
        v.get("openai_api_key"@) matches Some(JsonView::Str(key)) ==> a.api_key == Some(key),
        v.get("OPENAI_API_KEY"@) matches Some(JsonView::Str(key)) ==> a.api_key == Some(key),
        v.get("last_refresh"@) matches Some(JsonView::Str(text)) ==> text_date(text) is Some
            && a.last_refresh_at == Some(nanos_of(text_date(text)->0)),
        v.get("lastRefreshAt"@) matches Some(JsonView::Str(text)) ==> text_date(text) is Some
            && a.last_refresh_at == Some(nanos_of(text_date(text)->0)),
        v.get("last_refresh_at"@) matches Some(JsonView::Str(text)) ==> text_date(text) is Some
            && a.last_refresh_at == Some(nanos_of(text_date(text)->0)),
{
    let inner = field(v, 1, "tokens"@, "tokens"@, "tokens"@);
    fields_are_members(v, 1, "tokens"@, "tokens"@, "tokens"@, inner->Ok_0->0);
    tokens_are_read_by_name(tokens, a.tokens);
    let key = field(v, 0, "openai_api_key"@, "OPENAI_API_KEY"@, "OPENAI_API_KEY"@);
    fields_are_members(
        v,
        0,
        "openai_api_key"@,
        "OPENAI_API_KEY"@,
        "OPENAI_API_KEY"@,
        key->Ok_0->0,
    );
    let date = field(v, 2, "lastRefreshAt"@, "last_refresh_at"@, "last_refresh"@);
    fields_are_members(
        v,
        2,
        "lastRefreshAt"@,
        "last_refresh_at"@,
        "last_refresh"@,
        date->Ok_0->0,
    );
}

/// An object that has each of the three tokens once, as a text, and no account, is read: with those
/// texts, and accepted where none of them is blank.
pub proof fn files_with_tokens_are_accepted(
    entries: Seq<(Seq<char>, JsonView)>,
    id: Seq<char>,
    access: Seq<char>,
    refresh: Seq<char>,
)
    requires
        entries == seq![
            ("id_token"@, JsonView::Str(id)),
            ("access_token"@, JsonView::Str(access)),
            ("refresh_token"@, JsonView::Str(refresh)),
        ],
    ensures
        tokens_of(JsonView::Object(entries)) == Some(
            TokensView { id, access, refresh, account: None },
        ),
{
    reveal_strlit("idToken");
    reveal_strlit("id_token");
    reveal_strlit("accessToken");
    reveal_strlit("access_token");
    reveal_strlit("refreshToken");
    reveal_strlit("refresh_token");
    reveal_strlit("accountId");
    reveal_strlit("account_id");
    assert("idToken"@.len() == 7);
    assert("id_token"@.len() == 8);
    assert("accessToken"@.len() == 11);
    assert("access_token"@.len() == 12);
    assert("refreshToken"@.len() == 12 && "refreshToken"@[0] == 'r');
    assert("access_token"@[0] == 'a');
    assert("refresh_token"@.len() == 13);
    assert("accountId"@.len() == 9);
    assert("account_id"@.len() == 10);
    one_named_value(entries, "idToken"@, "id_token"@, "id_token"@, 0);
    one_named_value(entries, "accessToken"@, "access_token"@, "access_token"@, 1);
    one_named_value(entries, "refreshToken"@, "refresh_token"@, "refresh_token"@, 2);
    no_named_value(entries, "accountId"@, "account_id"@, "account_id"@);
}

/// A file is refused as invalid exactly where it cannot be read, and for its tokens exactly where one
/// of them is blank.
pub proof fn blank_tokens_are_refused(v: JsonView)
    ensures
        auth_of(v) is None <==> parsed_auth(v) == Err::<AuthView, AuthFileError>(
            AuthFileError::InvalidPayload,
        ),
        auth_of(v) matches Some(a) ==> {
            &&& trimmed(a.tokens.id).len() == 0 || trimmed(a.tokens.access).len() == 0 || trimmed(
                a.tokens.refresh,
            ).len() == 0 ==> parsed_auth(v) == Err::<AuthView, AuthFileError>(
                AuthFileError::MissingTokens,
            )
            &&& trimmed(a.tokens.id).len() > 0 && trimmed(a.tokens.access).len() > 0 && trimmed(
                a.tokens.refresh,
            ).len() > 0 ==> parsed_auth(v) == Ok::<AuthView, AuthFileError>(a)
        },
{
}

/// The tokens of a provider are those under its own names: the access token under access, the refresh
/// token under refresh, the identity token under any of its names and, without one, the access token.
pub proof fn providers_give_their_tokens(v: JsonView, p: ProviderView)
    requires
        v is Object,
        provider_record(v) == Some(p),
    ensures
        v.get("access"@) matches Some(x) ==> x == JsonView::Str(provider_tokens(p).access),
        v.get("access"@) is None ==> provider_tokens(p).access.len() == 0,
        v.get("refresh"@) matches Some(x) ==> x == JsonView::Str(provider_tokens(p).refresh),
        v.get("refresh"@) is None ==> provider_tokens(p).refresh.len() == 0,
        v.get("idToken"@) matches Some(JsonView::Str(id)) ==> trimmed(id).len() > 0
            ==> provider_tokens(p).id == id,
        v.get("id_token"@) matches Some(JsonView::Str(id)) ==> trimmed(id).len() > 0
            ==> provider_tokens(p).id == id,
        v.get("id"@) matches Some(JsonView::Str(id)) ==> trimmed(id).len() > 0
            ==> provider_tokens(p).id == id,
        v.get("idToken"@) is None && v.get("id_token"@) is None && v.get("id"@) is None
            ==> provider_tokens(p).id == provider_tokens(p).access,
        v.get("accountId"@) matches Some(JsonView::Str(id)) ==> trimmed(id).len() > 0
            ==> provider_tokens(p).account == Some(trimmed(id)),
        v.get("account_id"@) matches Some(JsonView::Str(id)) ==> trimmed(id).len() > 0
            ==> provider_tokens(p).account == Some(trimmed(id)),
        v.get("accountId"@) is None && v.get("account_id"@) is None ==> provider_tokens(
            p,
        ).account is None,
        v.get("expires"@) matches Some(at) ==> point_in_time(at) is Some ==> provider_claims(
            p,
        ).access_expires_at == point_in_time(at),
        v.get("expires"@) is None ==> provider_claims(p) == tokens_claims(provider_tokens(p)),
{
    let access = field(v, 1, "access"@, "access"@, "access"@);
    let refresh = field(v, 2, "refresh"@, "refresh"@, "refresh"@);
    let account = field(v, 3, "accountId"@, "account_id"@, "account_id"@);
    let expires = field(v, 4, "expires"@, "expires"@, "expires"@);
    let id = field(v, 5, "idToken"@, "id_token"@, "id"@);
    fields_are_members(v, 1, "access"@, "access"@, "access"@, access->Ok_0->0);
    fields_are_members(v, 2, "refresh"@, "refresh"@, "refresh"@, refresh->Ok_0->0);
    fields_are_members(v, 3, "accountId"@, "account_id"@, "account_id"@, account->Ok_0->0);
    fields_are_members(v, 4, "expires"@, "expires"@, "expires"@, expires->Ok_0->0);
    fields_are_members(v, 5, "idToken"@, "id_token"@, "id"@, id->Ok_0->0);
}

/// The provider is the value itself where it looks like one, else the one named for OpenAI, else the
/// one named for Codex, else the first that there is; a value looks like one where it has a token, or
/// says that it is of OAuth.
pub proof fn providers_are_found_in_order(v: JsonView, inner: JsonView)
    ensures
        inner is Object && (inner.get("access"@) is Some || inner.get("refresh"@) is Some)
            ==> is_provider(inner),
        inner is Object && inner.get("type"@) == Some(JsonView::Str("oauth"@)) ==> is_provider(
            inner,
        ),
        inner.get("type"@) is None && inner.get("access"@) is None && inner.get("refresh"@) is None
            ==> !is_provider(inner),
        is_provider(v) ==> provider_of(v) == Some(v),
        !is_provider(v) && v.get("openai"@) == Some(inner) && is_provider(inner) ==> provider_of(v)
            == Some(inner),
        !is_provider(v) && v.get("openai"@) is None && v.get("codex"@) == Some(inner)
            && is_provider(inner) ==> provider_of(v) == Some(inner),
        provider_of(v) matches Some(p) ==> is_provider(p),
        provider_of(v) is None && v is Object ==> forall|i: int|
            0 <= i < v->Object_0.len() ==> !is_provider((#[trigger] v->Object_0[i]).1),
{
    if v is Object {
        let entries = v->Object_0;
        if exists|i: int| provider_at(entries, i) {
            let k = choose|i: int| provider_at(entries, i);
            first_provider(entries, k);
        } else {
            assert forall|i: int| 0 <= i < entries.len() implies !is_provider(
                (#[trigger] entries[i]).1,
            ) by {
                assert(!provider_at(entries, i));
            }
        }
    }
}

proof fn first_provider(entries: Seq<(Seq<char>, JsonView)>, k: int)
    requires
        provider_at(entries, k),
    ensures
        exists|i: int|
            provider_at(entries, i) && forall|j: int| 0 <= j < i ==> !provider_at(entries, j),
    decreases k,
{
    if exists|j: int| 0 <= j < k && provider_at(entries, j) {
        let j = choose|j: int| 0 <= j < k && provider_at(entries, j);
        first_provider(entries, j);
    } else {
        assert(provider_at(entries, k) && forall|j: int|
            0 <= j < k ==> !provider_at(entries, j));
    }
}

/// What the tokens claim is read from the identity token first, and from the access token where that
/// says nothing: the account, the address and the plan. The account that the file names comes before
/// both. Each token tells its own expiry.
pub proof fn claims_prefer_the_identity_token(
    account: Option<Seq<char>>,
    id: JsonView,
    access: JsonView,
    text: Seq<char>,
)
    ensures
        account == Some(text) && trimmed(text).len() > 0 ==> claims_of(account, id, access).account
            == Some(trimmed(text)),
        account is None && claim(id, "chatgpt_account_id"@) == Some(text) ==> claims_of(
            account,
            id,
            access,
        ).account == Some(text),
        account is None && claim(id, "chatgpt_account_id"@) is None ==> claims_of(
            account,
            id,
            access,
        ).account == claim(access, "chatgpt_account_id"@),
        email_of(id) == Some(text) ==> claims_of(account, id, access).email == text,
        email_of(id) is None && email_of(access) == Some(text) ==> claims_of(
            account,
            id,
            access,
        ).email == text,
        email_of(id) is None && email_of(access) is None ==> claims_of(account, id, access).email
            == "unknown@example.com"@,
        claim(id, "chatgpt_plan_type"@) == Some(text) ==> claims_of(account, id, access).plan
            == text,
        claim(id, "chatgpt_plan_type"@) is None && claim(access, "chatgpt_plan_type"@) == Some(text)
            ==> claims_of(account, id, access).plan == text,
        claim(id, "chatgpt_plan_type"@) is None && claim(access, "chatgpt_plan_type"@) is None
            ==> claims_of(account, id, access).plan == "unknown"@,
        access.get("exp"@) matches Some(at) ==> claims_of(account, id, access).access_expires_at
            == point_in_time(at),
        id.get("exp"@) matches Some(at) ==> claims_of(account, id, access).id_expires_at
            == point_in_time(at),
        access.get("exp"@) is None ==> claims_of(account, id, access).access_expires_at is None,
        id.get("exp"@) is None ==> claims_of(account, id, access).id_expires_at is None,
        workspace_of(id).id == Some(text) ==> claims_of(account, id, access).workspace.id == Some(
            text,
        ),
        workspace_of(id).id is None && workspace_of(access).id is None ==> claims_of(
            account,
            id,
            access,
        ).workspace.id == claims_of(account, id, access).account,
        workspace_of(id).name == Some(text) ==> claims_of(account, id, access).workspace.name
            == Some(text),
        workspace_of(id).name is None ==> claims_of(account, id, access).workspace.name
            == workspace_of(access).name,
        workspace_of(id).role == Some(text) ==> claims_of(account, id, access).workspace.role
            == Some(text),
        workspace_of(id).role is None ==> claims_of(account, id, access).workspace.role
            == workspace_of(access).role,
{
}

/// The claims of a file are those of its two tokens, the identity token and the access token each in
/// its own place.
pub proof fn claims_are_of_the_tokens(t: TokensView, id: JsonView, access: JsonView)
    ensures
        jwt_claims(t.id) == Some(id) && jwt_claims(t.access) == Some(access) ==> tokens_claims(t)
            == claims_of(t.account, id, access),
        jwt_claims(t.id) is None && jwt_claims(t.access) == Some(access) ==> tokens_claims(t)
            == claims_of(t.account, JsonView::Null, access),
        jwt_claims(t.id) == Some(id) && jwt_claims(t.access) is None ==> tokens_claims(t)
            == claims_of(t.account, id, JsonView::Null),
{
}

/// A claim is read from the object of OpenAI's claims and, where that has none, from the claims
/// themselves; an address from the claims themselves first, and then from the profile.
pub proof fn claims_are_read_by_name(
    claims: JsonView,
    auth: JsonView,
    profile: JsonView,
    key: Seq<char>,
    text: Seq<char>,
)
    requires
        trimmed(text).len() > 0,
    ensures
        claims.get("https://api.openai.com/auth"@) == Some(auth) && auth is Object && auth.get(key)
            == Some(JsonView::Str(text)) ==> claim(claims, key) == Some(trimmed(text)),
        claims.get("https://api.openai.com/auth"@) is None && claims.get(key) == Some(
            JsonView::Str(text),
        ) ==> claim(claims, key) == Some(trimmed(text)),
        claims.get("https://api.openai.com/auth"@) == Some(auth) && auth.get(key) is None
            && claims.get(key) == Some(JsonView::Str(text)) ==> claim(claims, key) == Some(
            trimmed(text),
        ),
        claims.get("https://api.openai.com/auth"@) is None && claims.get(key) is None ==> claim(
            claims,
            key,
        ) is None,
        claims.get("email"@) == Some(JsonView::Str(text)) ==> email_of(claims) == Some(
            trimmed(text),
        ),
        claims.get("email"@) is None && claims.get("https://api.openai.com/profile"@) == Some(
            profile,
        ) && profile.get("email"@) == Some(JsonView::Str(text)) ==> email_of(claims) == Some(
            trimmed(text),
        ),
        claims.get("email"@) is None && claims.get("https://api.openai.com/profile"@) is None
            ==> email_of(claims) is None,
{
}

/// A workspace is read by the names of its members, the first that is more than white space.
pub proof fn workspaces_are_read_by_name(v: JsonView, text: Seq<char>)
    requires
        trimmed(text).len() > 0,
    ensures
        v.get("id"@) == Some(JsonView::Str(text)) ==> workspace_object(v).id == Some(trimmed(text)),
        v.get("id"@) is None && v.get("workspace_id"@) == Some(JsonView::Str(text))
            ==> workspace_object(v).id == Some(trimmed(text)),
        v.get("id"@) is None && v.get("workspace_id"@) is None && v.get("account_id"@) == Some(
            JsonView::Str(text),
        ) ==> workspace_object(v).id == Some(trimmed(text)),
        v.get("name"@) == Some(JsonView::Str(text)) ==> workspace_object(v).name == Some(
            trimmed(text),
        ),
        v.get("name"@) is None && v.get("title"@) == Some(JsonView::Str(text)) ==> workspace_object(
            v,
        ).name == Some(trimmed(text)),
        v.get("name"@) is None && v.get("title"@) is None && v.get("workspace_name"@) == Some(
            JsonView::Str(text),
        ) ==> workspace_object(v).name == Some(trimmed(text)),
        v.get("role"@) == Some(JsonView::Str(text)) ==> workspace_object(v).role == Some(
            trimmed(text),
        ),
        v.get("role"@) is None && v.get("workspace_role"@) == Some(JsonView::Str(text))
            ==> workspace_object(v).role == Some(trimmed(text)),
        v.get("is_default"@) == Some(JsonView::Bool(true)) ==> workspace_object(v).is_default
            == Some(true),
        v.get("is_default"@) is None && v.get("isDefault"@) == Some(JsonView::Bool(true))
            ==> workspace_object(v).is_default == Some(true),
        v.get("is_default"@) is None && v.get("isDefault"@) is None ==> workspace_object(
            v,
        ).is_default is None,
{
}

/// A number that stands for a time is a number of seconds, and one of a hundred thousand million or
/// more, of either sign, a number of milliseconds.
pub proof fn large_numbers_are_milliseconds(raw: i64)
    ensures
        -100_000_000_000 < raw < 100_000_000_000 && epoch(raw) is Some ==> epoch_point(raw) == Some(
            (epoch(raw)->0 * 1_000_000_000) as i128,
        ),
        (raw >= 100_000_000_000 || raw <= -100_000_000_000) && epoch_millis(raw) is Some
            ==> epoch_point(raw) == Some((epoch_millis(raw)->0 * 1_000_000) as i128),
        point_in_time(JsonView::Number(JsonNumber::NegInt(raw))) == epoch_point(raw),
        raw >= 0 ==> point_in_time(JsonView::Number(JsonNumber::PosInt(raw as u64)))
            == epoch_point(raw),
        point_in_time(JsonView::Null) is None,
        point_in_time(JsonView::Bool(true)) is None,
{
}

/// The payload of a token is what is between its first dot and its second, or its end.
pub proof fn payloads_are_between_dots(s: Seq<char>, i: int, j: int)
    requires
        0 <= i < j <= s.len(),
        forall|k: int| 0 <= k < i ==> s[k] != '.',
        s[i] == '.',
        forall|k: int| i < k < j ==> s[k] != '.',
        j == s.len() || s[j] == '.',
    ensures
        second_part(s) == Some(s.subrange(i + 1, j)),
    decreases i,
{
    let rest = s.drop_first();
    if i == 0 {
        before_dot_at(rest, j - 1);
        assert(rest.take(j - 1) =~= s.subrange(i + 1, j));
    } else {
        assert forall|k: int| 0 <= k < i - 1 implies rest[k] != '.' by {
            assert(rest[k] == s[k + 1]);
        }
        assert forall|k: int| i - 1 < k < j - 1 implies rest[k] != '.' by {
            assert(rest[k] == s[k + 1]);
        }
        payloads_are_between_dots(rest, i - 1, j - 1);
        assert(rest.subrange(i, j - 1) =~= s.subrange(i + 1, j));
    }
}

/// Tokens and files are seen under their own names.
pub proof fn tokens_are_seen_by_name(t: AuthTokens, a: AuthFile)
    ensures
        t@.id == t.id_token@,
        t@.access == t.access_token@,
        t@.refresh == t.refresh_token@,
        t.account_id matches Some(id) ==> t@.account == Some(id@),
        t.account_id is None ==> t@.account is None,
        a@.tokens == a.tokens@,
        a@.last_refresh_at == a.last_refresh_at,
        a.openai_api_key matches Some(key) ==> a@.api_key == Some(key@),
{
}

/// Of several organizations the first that is the default one counts, and where none is, the first.
pub proof fn default_organizations_come_first(items: Seq<JsonView>, i: int)
    requires
        0 <= i < items.len(),
        items[i] is Object,
    ensures
        items[i].get("is_default"@) == Some(JsonView::Bool(true)) && (forall|j: int|
            0 <= j < i ==> !((#[trigger] items[j]) is Object) || items[j].get("is_default"@) != Some(
                JsonView::Bool(true),
            )) ==> organization(items) == Some(items[i]),
        (forall|j: int|
            0 <= j < items.len() ==> (#[trigger] items[j]).get("is_default"@) != Some(
                JsonView::Bool(true),
            )) && (forall|j: int| 0 <= j < i ==> !((#[trigger] items[j]) is Object)) ==> organization(
            items,
        ) == Some(items[i]),
{
    if items[i].get("is_default"@) == Some(JsonView::Bool(true)) && (forall|j: int|
        0 <= j < i ==> !((#[trigger] items[j]) is Object) || items[j].get("is_default"@) != Some(
            JsonView::Bool(true),
        )) {
        assert(default_org_at(items, i));
        assert forall|j: int| 0 <= j < i implies !default_org_at(items, j) by {
            let item = items[j];
            flags_are_members(item, "is_default"@);
        }
        let k = choose|k: int|
            default_org_at(items, k) && forall|j: int| 0 <= j < k ==> !default_org_at(items, j);
        if k < i {
            assert(!default_org_at(items, k));
        } else if i < k {
            assert(!default_org_at(items, i));
        }
    } else if (forall|j: int|
        0 <= j < items.len() ==> (#[trigger] items[j]).get("is_default"@) != Some(
            JsonView::Bool(true),
        )) && (forall|j: int| 0 <= j < i ==> !((#[trigger] items[j]) is Object)) {
        assert forall|j: int| !default_org_at(items, j) by {
            if 0 <= j < items.len() {
                let item = items[j];
                flags_are_members(item, "is_default"@);
            }
        }
        assert(org_at(items, i));
        assert forall|j: int| 0 <= j < i implies !org_at(items, j) by {
            let item = items[j];
        }
        let k = choose|k: int| org_at(items, k) && forall|j: int| 0 <= j < k ==> !org_at(items, j);
        if k < i {
            assert(!org_at(items, k));
        } else if i < k {
            assert(!org_at(items, i));
        }
    }
}

proof fn flags_are_members(v: JsonView, key: Seq<char>)
    ensures
        flag_member(v, key) == Some(true) <==> v.get(key) == Some(JsonView::Bool(true)),
{
}

/// The workspace of an account is the object that is named so; where there is none, it is the
/// organization, and where there are none, what the claims say themselves.
pub proof fn workspaces_have_places(claims: JsonView, auth: JsonView, items: Seq<JsonView>, text: Seq<char>)
    requires
        auth_object(claims) == Some(auth),
        trimmed(text).len() > 0,
    ensures
        auth.get("workspace"@) matches Some(v) ==> (v is Object ==> workspace_of(claims)
            == workspace_object(v)),
        !(auth.get("workspace"@) matches Some(v) && v is Object) && auth.get("organizations"@) == Some(
            JsonView::Array(items),
        ) ==> (organization(items) matches Some(org) ==> workspace_of(claims) == workspace_object(org)),
        auth.get("workspace"@) is None && auth.get("organizations"@) is None ==> {
            &&& auth.get("workspace_id"@) == Some(JsonView::Str(text)) ==> workspace_of(claims).id
                == Some(trimmed(text))
            &&& auth.get("workspace_id"@) is None && auth.get("chatgpt_workspace_id"@) == Some(
                JsonView::Str(text),
            ) ==> workspace_of(claims).id == Some(trimmed(text))
            &&& auth.get("workspace_name"@) == Some(JsonView::Str(text)) ==> workspace_of(claims).name
                == Some(trimmed(text))
            &&& auth.get("workspace_name"@) is None && auth.get("chatgpt_workspace_name"@) == Some(
                JsonView::Str(text),
            ) ==> workspace_of(claims).name == Some(trimmed(text))
            &&& auth.get("workspace_name"@) is None && auth.get("chatgpt_workspace_name"@) is None
                && auth.get("workspace_title"@) == Some(JsonView::Str(text)) ==> workspace_of(
                claims,
            ).name == Some(trimmed(text))
            &&& auth.get("workspace_role"@) == Some(JsonView::Str(text)) ==> workspace_of(claims).role
                == Some(trimmed(text))
            &&& auth.get("workspace_is_default"@) == Some(JsonView::Bool(true)) ==> workspace_of(
                claims,
            ).is_default == Some(true)
        },
{
}

/// Claims say when they expire, in seconds or milliseconds since 1970 or as a date.
pub proof fn expiry_is_read_by_name(claims: JsonView, n: u64, text: Seq<char>)
    ensures
        claims.get("exp"@) == Some(JsonView::Number(JsonNumber::PosInt(n))) && n < 100000000000
            && epoch(n as i64) is Some ==> expiry(claims) == Some((n * NANOS) as i128),
        claims.get("exp"@) is None ==> expiry(claims) is None,
        claims.get("exp"@) == Some(JsonView::Null) ==> expiry(claims) is None,
        claims.get("exp"@) == Some(JsonView::Str(text)) && decimal_value(trimmed(text)) is None ==> (
        rfc3339_date(trimmed(text)) matches Some(date) ==> expiry(claims) == Some(nanos_of(date))),
{
}

} // verus!
