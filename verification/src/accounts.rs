//! Accounts as they are kept, and how imports, updates, refreshed tokens and usage reports change
//! them.
use vstd::prelude::*;
use vstd::string::StringExecFns;
use crate::auth_file::{AuthClaims, AuthFile};
use crate::crypto::{decrypted, CryptoError, TokenCrypto, MAX_PLAINTEXT_BYTES};
use crate::error::{bad_request_of, failure, not_found_of, AppError, AppErrorKind};
use crate::ids::{text_of_uuid, uuid_text};
use crate::labels::{bad_label, is_label, normal_label, normalize_label};
use crate::models::{AccountTokens, AccountUpdateRequest, UsageSummary};
use crate::text::{clone_opt, lower, same, same_opt, trimmed};
use crate::time::{is_time, seconds_after, time_after};
use crate::usage::{window_views, ParsedUsageWindow, WindowView};
use vstd::utf8::encode_utf8;

verus! {

/// An account. Its tokens are kept sealed; points in time are nanoseconds since 1970.
pub struct Account {
    pub id: u128,
    pub chatgpt_account_id: Option<String>,
    pub label: String,
    pub email: String,
    pub plan_type: String,
    pub encrypted_access_token: String,
    pub encrypted_refresh_token: String,
    pub encrypted_id_token: String,
    pub last_refresh_at: i128,
    pub access_token_expires_at: Option<i128>,
    pub last_usage_refresh_at: Option<i128>,
    pub last_usage_error: Option<String>,
    pub status: String,
    pub status_reason: Option<String>,
    pub created_at: i128,
    pub updated_at: i128,
}

pub struct AccountView {
    pub id: u128,
    pub chatgpt: Option<Seq<char>>,
    pub label: Seq<char>,
    pub email: Seq<char>,
    pub plan: Seq<char>,
    pub access: Seq<char>,
    pub refresh: Seq<char>,
    pub id_token: Seq<char>,
    pub last_refresh_at: i128,
    pub expires_at: Option<i128>,
    pub usage_at: Option<i128>,
    pub usage_error: Option<Seq<char>>,
    pub status: Seq<char>,
    pub reason: Option<Seq<char>>,
    pub created_at: i128,
    pub updated_at: i128,
}

impl View for Account {
    type V = AccountView;

    open spec fn view(&self) -> AccountView {
        AccountView {
            id: self.id,
            chatgpt: self.chatgpt_account_id.deep_view(),
            label: self.label@,
            email: self.email@,
            plan: self.plan_type@,
            access: self.encrypted_access_token@,
            refresh: self.encrypted_refresh_token@,
            id_token: self.encrypted_id_token@,
            last_refresh_at: self.last_refresh_at,
            expires_at: self.access_token_expires_at,
            usage_at: self.last_usage_refresh_at,
            usage_error: self.last_usage_error.deep_view(),
            status: self.status@,
            reason: self.status_reason.deep_view(),
            created_at: self.created_at,
            updated_at: self.updated_at,
        }
    }
}

/// The states that an account can be set to.
pub open spec fn is_status(s: Seq<char>) -> bool {
    s == "active"@ || s == "rate_limited"@ || s == "quota_exceeded"@ || s == "paused"@ || s
        == "auth_failed"@
}

pub open spec fn bad_status(s: Seq<char>) -> Seq<char> {
    "invalid account status '"@ + s + "'"@
}

pub fn validate_status_opt(status: Option<&str>) -> (r: Result<(), AppError>)
    ensures
        match status {
            Some(s) => if is_status(s@) {
                r is Ok
            } else {
                failure(r) == bad_request_of(bad_status(s@))
            },
            None => r is Ok,
        },
{
    if let Some(s) = status {
        if !(same(s, "active") || same(s, "rate_limited") || same(s, "quota_exceeded") || same(
            s,
            "paused",
        ) || same(s, "auth_failed")) {
            let mut text = "invalid account status '".to_owned();
            text.append(s);
            text.append("'");
            return Err(AppError::BadRequest(text));
        }
    }
    Ok(())
}

/// The second text where it is there, else the first.
pub open spec fn changed(old_text: Seq<char>, new_text: Option<Seq<char>>) -> Seq<char> {
    match new_text {
        Some(text) => text,
        None => old_text,
    }
}

fn change(kept: String, new_text: Option<String>) -> (r: String)
    ensures
        r@ == changed(kept@, new_text.deep_view()),
{
    match new_text {
        Some(text) => text,
        None => kept,
    }
}

pub open spec fn no_account(id: u128) -> Seq<char> {
    "account "@ + text_of_uuid(id) + " not found"@
}

fn account_not_found(id: u128) -> (r: AppError)
    ensures
        r@ == (AppErrorKind::NotFound, no_account(id)),
{
    let mut text = "account ".to_owned();
    text.append(&uuid_text(id));
    text.append(" not found");
    AppError::NotFound(text)
}

/// Why an update is refused: for its status, else for its label, else for want of the account.
pub open spec fn update_refusal(
    known: Option<Account>,
    id: u128,
    status: Option<Seq<char>>,
    label: Option<Seq<char>>,
) -> Option<(AppErrorKind, Seq<char>)> {
    if status matches Some(s) && !is_status(s) {
        bad_request_of(bad_status(status->0))
    } else if label matches Some(text) && !is_label(normal_label(text)) {
        bad_request_of(bad_label())
    } else if known is None {
        not_found_of(no_account(id))
    } else {
        None
    }
}

pub open spec fn updated(
    a: AccountView,
    status: Option<Seq<char>>,
    label: Option<Seq<char>>,
    email: Option<Seq<char>>,
    plan: Option<Seq<char>>,
    now: i128,
) -> AccountView {
    AccountView {
        status: changed(a.status, status),
        label: match label {
            Some(text) => normal_label(text),
            None => a.label,
        },
        email: changed(a.email, email),
        plan: changed(a.plan, plan),
        reason: if status == Some("active"@) {
            None
        } else {
            a.reason
        },
        updated_at: now,
        ..a
    }
}

/// The label in its normal form, where one is given.
fn checked_label(label: &Option<String>) -> (r: Result<Option<String>, AppError>)
    ensures
        match label.deep_view() {
            None => r matches Ok(None),
            Some(text) => if is_label(normal_label(text)) {
                r matches Ok(Some(value)) && value@ == normal_label(text)
            } else {
                failure(r) == bad_request_of(bad_label())
            },
        },
{
    match label {
        None => Ok(None),
        Some(text) => match normalize_label(text) {
            Ok(value) => Ok(Some(value)),
            Err(e) => Err(e),
        },
    }
}

/// An account with what an update says. `known` is the account with the identifier, where there is
/// one. Setting it active takes away the reason of its last state.
pub fn update_account(
    known: Option<Account>,
    id: u128,
    request: AccountUpdateRequest,
    now: i128,
) -> (r: Result<Account, AppError>)
    ensures
        failure(r) == update_refusal(
            known,
            id,
            request.status.deep_view(),
            request.label.deep_view(),
        ),
        r matches Ok(account) ==> known is Some && account@ == updated(
            known->0@,
            request.status.deep_view(),
            request.label.deep_view(),
            request.email.deep_view(),
            request.plan_type.deep_view(),
            now,
        ),
{
    let checked = match &request.status {
        Some(s) => validate_status_opt(Some(s.as_str())),
        None => validate_status_opt(None),
    };
    if let Err(e) = checked {
        return Err(e);
    }
    let label = match checked_label(&request.label) {
        Ok(label) => label,
        Err(e) => return Err(e),
    };
    let mut account = match known {
        Some(account) => account,
        None => return Err(account_not_found(id)),
    };
    let active = match &request.status {
        Some(s) => same(s, "active"),
        None => false,
    };
    if active {
        account.status_reason = None;
    }
    account.status = change(account.status, request.status);
    account.label = change(account.label, label);
    account.email = change(account.email, request.email);
    account.plan_type = change(account.plan_type, request.plan_type);
    account.updated_at = now;
    Ok(account)
}

/// Whether sealed texts hold the tokens.
pub open spec fn seals(key: Seq<u8>, a: AccountView, auth: AuthFile) -> bool {
    &&& decrypted(key, a.access) == Ok::<Seq<char>, CryptoError>(auth.tokens.access_token@)
    &&& decrypted(key, a.refresh) == Ok::<Seq<char>, CryptoError>(auth.tokens.refresh_token@)
    &&& decrypted(key, a.id_token) == Ok::<Seq<char>, CryptoError>(auth.tokens.id_token@)
}

/// Whether a token is too long to be sealed.
pub open spec fn too_long(auth: AuthFile) -> bool {
    encode_utf8(auth.tokens.access_token@).len() > MAX_PLAINTEXT_BYTES || encode_utf8(
        auth.tokens.refresh_token@,
    ).len() > MAX_PLAINTEXT_BYTES || encode_utf8(auth.tokens.id_token@).len() > MAX_PLAINTEXT_BYTES
}

struct Sealed {
    access: String,
    refresh: String,
    id_token: String,
}

fn seal_tokens(crypto: &TokenCrypto, auth: &AuthFile) -> (r: Result<Sealed, AppError>)
    ensures
        match r {
            Ok(s) => {
                &&& !too_long(*auth)
                &&& decrypted(crypto.key(), s.access@) == Ok::<Seq<char>, CryptoError>(
                    auth.tokens.access_token@,
                )
                &&& decrypted(crypto.key(), s.refresh@) == Ok::<Seq<char>, CryptoError>(
                    auth.tokens.refresh_token@,
                )
                &&& decrypted(crypto.key(), s.id_token@) == Ok::<Seq<char>, CryptoError>(
                    auth.tokens.id_token@,
                )
            },
            Err(e) => too_long(*auth) && e@ == (AppErrorKind::Internal, "encryption failed"@),
        },
{
    let access = match crypto.encrypt(&auth.tokens.access_token) {
        Ok(text) => text,
        Err(e) => return Err(AppError::Internal(e.message().to_owned())),
    };
    let refresh = match crypto.encrypt(&auth.tokens.refresh_token) {
        Ok(text) => text,
        Err(e) => return Err(AppError::Internal(e.message().to_owned())),
    };
    let id_token = match crypto.encrypt(&auth.tokens.id_token) {
        Ok(text) => text,
        Err(e) => return Err(AppError::Internal(e.message().to_owned())),
    };
    Ok(Sealed { access, refresh, id_token })
}

/// Whether the known account is the one that the claims speak of.
pub open spec fn is_known(known: Option<Account>, claims: AuthClaims) -> bool {
    known is Some && claims.chatgpt_account_id is Some
        && known->0.chatgpt_account_id.deep_view() == claims.chatgpt_account_id.deep_view()
}

/// An imported account, but for its sealed tokens: a new one, or the known one with what the import
/// says. An import without a label keeps the label, and any import makes the account active.
pub open spec fn imported(
    known: Option<Account>,
    fresh_id: u128,
    auth: AuthFile,
    claims: AuthClaims,
    label: Option<Seq<char>>,
    now: i128,
    tokens: AccountView,
) -> AccountView {
    let named = match label {
        Some(text) => normal_label(text),
        None => ""@,
    };
    let base = if is_known(known, claims) {
        known->0@
    } else {
        AccountView {
            id: fresh_id,
            chatgpt: claims.chatgpt_account_id.deep_view(),
            label: ""@,
            usage_at: None,
            usage_error: None,
            created_at: now,
            ..tokens
        }
    };
    AccountView {
        label: if is_known(known, claims) && named.len() == 0 {
            base.label
        } else {
            named
        },
        email: claims.email@,
        plan: claims.plan_type@,
        access: tokens.access,
        refresh: tokens.refresh,
        id_token: tokens.id_token,
        last_refresh_at: match auth.last_refresh_at {
            Some(at) => at,
            None => now,
        },
        expires_at: claims.access_token_expires_at,
        status: "active"@,
        reason: None,
        updated_at: now,
        ..base
    }
}

/// Takes an account in: as a new one under the fresh identifier, or in place of the known one of the
/// same ChatGPT account.
pub fn upsert_account(
    crypto: &TokenCrypto,
    known: Option<Account>,
    fresh_id: u128,
    auth: &AuthFile,
    claims: &AuthClaims,
    label: &Option<String>,
    now: i128,
) -> (r: Result<Account, AppError>)
    ensures
        match r {
            Ok(account) => {
                &&& label.deep_view() matches Some(text) ==> is_label(normal_label(text))
                &&& !too_long(*auth)
                &&& seals(crypto.key(), account@, *auth)
                &&& account@ == imported(
                    known,
                    fresh_id,
                    *auth,
                    *claims,
                    label.deep_view(),
                    now,
                    account@,
                )
            },
            Err(e) => if label.deep_view() matches Some(text) && !is_label(normal_label(text)) {
                e@ == (AppErrorKind::BadRequest, bad_label())
            } else {
                too_long(*auth) && e@ == (AppErrorKind::Internal, "encryption failed"@)
            },
        },
{
    let named = match checked_label(label) {
        Ok(Some(text)) => text,
        Ok(None) => "".to_owned(),
        Err(e) => return Err(e),
    };
    let tokens = match seal_tokens(crypto, auth) {
        Ok(tokens) => tokens,
        Err(e) => return Err(e),
    };
    let last_refresh_at: i128 = match auth.last_refresh_at {
        Some(at) => at,
        None => now,
    };
    proof {
        reveal_strlit("");
    }
    if let Some(old_account) = known {
        if claims.chatgpt_account_id.is_some() && same_opt(
            &old_account.chatgpt_account_id,
            &claims.chatgpt_account_id,
        ) {
            let mut account = old_account;
            if !named.as_str().is_empty() {
                account.label = named;
            }
            account.email = claims.email.clone();
            account.plan_type = claims.plan_type.clone();
            account.encrypted_access_token = tokens.access;
            account.encrypted_refresh_token = tokens.refresh;
            account.encrypted_id_token = tokens.id_token;
            account.last_refresh_at = last_refresh_at;
            account.access_token_expires_at = claims.access_token_expires_at;
            account.status = "active".to_owned();
            account.status_reason = None;
            account.updated_at = now;
            return Ok(account);
        }
    }
    Ok(
        Account {
            id: fresh_id,
            chatgpt_account_id: clone_opt(&claims.chatgpt_account_id),
            label: named,
            email: claims.email.clone(),
            plan_type: claims.plan_type.clone(),
            encrypted_access_token: tokens.access,
            encrypted_refresh_token: tokens.refresh,
            encrypted_id_token: tokens.id_token,
            last_refresh_at,
            access_token_expires_at: claims.access_token_expires_at,
            last_usage_refresh_at: None,
            last_usage_error: None,
            status: "active".to_owned(),
            status_reason: None,
            created_at: now,
            updated_at: now,
        },
    )
}

/// An account with refreshed tokens, but for those. What the tokens do not say stays.
pub open spec fn refreshed_account(
    a: AccountView,
    claims: AuthClaims,
    now: i128,
    tokens: AccountView,
) -> AccountView {
    AccountView {
        access: tokens.access,
        refresh: tokens.refresh,
        id_token: tokens.id_token,
        chatgpt: match claims.chatgpt_account_id.deep_view() {
            Some(text) => Some(text),
            None => a.chatgpt,
        },
        email: claims.email@,
        plan: claims.plan_type@,
        expires_at: match claims.access_token_expires_at {
            Some(at) => Some(at),
            None => a.expires_at,
        },
        last_refresh_at: now,
        status: "active"@,
        reason: None,
        updated_at: now,
        ..a
    }
}

/// An account with refreshed tokens, which makes it active again.
pub fn update_account_tokens(
    crypto: &TokenCrypto,
    known: Option<Account>,
    id: u128,
    auth: &AuthFile,
    claims: &AuthClaims,
    now: i128,
) -> (r: Result<Account, AppError>)
    ensures
        match r {
            Ok(account) => known is Some && !too_long(*auth) && seals(
                crypto.key(),
                account@,
                *auth,
            ) && account@ == refreshed_account(known->0@, *claims, now, account@),
            Err(e) => if too_long(*auth) {
                e@ == (AppErrorKind::Internal, "encryption failed"@)
            } else {
                known is None && e@ == (AppErrorKind::NotFound, no_account(id))
            },
        },
{
    let tokens = match seal_tokens(crypto, auth) {
        Ok(tokens) => tokens,
        Err(e) => return Err(e),
    };
    let mut account = match known {
        Some(account) => account,
        None => return Err(account_not_found(id)),
    };
    account.encrypted_access_token = tokens.access;
    account.encrypted_refresh_token = tokens.refresh;
    account.encrypted_id_token = tokens.id_token;
    if claims.chatgpt_account_id.is_some() {
        account.chatgpt_account_id = clone_opt(&claims.chatgpt_account_id);
    }
    account.email = claims.email.clone();
    account.plan_type = claims.plan_type.clone();
    if claims.access_token_expires_at.is_some() {
        account.access_token_expires_at = claims.access_token_expires_at;
    }
    account.last_refresh_at = now;
    account.status = "active".to_owned();
    account.status_reason = None;
    account.updated_at = now;
    Ok(account)
}

/// An account whose requests were limited, which a usage report makes active again.
pub open spec fn is_limited(status: Seq<char>) -> bool {
    status == "rate_limited"@ || status == "quota_exceeded"@
}

/// Whether a report has a window for the use of Codex itself.
pub open spec fn has_codex_window(windows: Seq<WindowView>) -> bool {
    exists|i: int| 0 <= i < windows.len() && (#[trigger] windows[i]).key == "codex"@
}

pub open spec fn with_usage(
    a: AccountView,
    plan: Option<Seq<char>>,
    fetched_at: i128,
    now: i128,
) -> AccountView {
    AccountView {
        plan: changed(a.plan, plan),
        usage_at: Some(fetched_at),
        usage_error: None,
        status: if is_limited(a.status) {
            "active"@
        } else {
            a.status
        },
        reason: if is_limited(a.status) {
            None
        } else {
            a.reason
        },
        updated_at: now,
        ..a
    }
}

/// An account after a usage report, refused where the report says nothing of Codex itself: the
/// windows of the report then replace those of the account.
pub fn replace_usage_windows(
    account: Account,
    plan_type: Option<String>,
    fetched_at: i128,
    windows: &Vec<ParsedUsageWindow>,
    now: i128,
) -> (r: Result<Account, AppError>)
    ensures
        match r {
            Ok(a) => has_codex_window(window_views(windows@)) && a@ == with_usage(
                account@,
                plan_type.deep_view(),
                fetched_at,
                now,
            ),
            Err(e) => !has_codex_window(window_views(windows@)) && e@ == (
                AppErrorKind::Upstream,
                "usage response did not contain a Codex quota window"@,
            ),
        },
{
    let ghost all = window_views(windows@);
    let mut found = false;
    let mut i: usize = 0;
    while i < windows.len()
        invariant
            i <= windows.len(),
            all == window_views(windows@),
            found ==> has_codex_window(all),
            !found ==> forall|k: int| 0 <= k < i ==> (#[trigger] all[k]).key != "codex"@,
        decreases windows.len() - i,
    {
        assert(all[i as int].key == windows@[i as int].quota_key@);
        if same(&windows[i].quota_key, "codex") {
            found = true;
        }
        i += 1;
    }
    if !found {
        return Err(
            AppError::Upstream("usage response did not contain a Codex quota window".to_owned()),
        );
    }
    let mut a = account;
    a.plan_type = change(a.plan_type, plan_type);
    a.last_usage_refresh_at = Some(fetched_at);
    a.last_usage_error = None;
    if same(&a.status, "rate_limited") || same(&a.status, "quota_exceeded") {
        a.status = "active".to_owned();
        a.status_reason = None;
    }
    a.updated_at = now;
    Ok(a)
}

/// An account whose tokens no longer work.
pub open spec fn with_auth_failure(a: AccountView, reason: Seq<char>, now: i128) -> AccountView {
    AccountView { status: "auth_failed"@, reason: Some(reason), updated_at: now, ..a }
}

/// An account whose tokens no longer work.
pub fn mark_auth_failed(account: Account, reason: &str, now: i128) -> (r: Account)
    ensures
        r@ == with_auth_failure(account@, reason@, now),
        r@ == (AccountView {
            status: "auth_failed"@,
            reason: Some(reason@),
            updated_at: now,
            ..account@
        }),
{
    let mut a = account;
    a.status = "auth_failed".to_owned();
    a.status_reason = Some(reason.to_owned());
    a.updated_at = now;
    a
}

/// An account whose usage could not be read.
pub open spec fn with_usage_error(a: AccountView, message: Seq<char>, now: i128) -> AccountView {
    AccountView { usage_error: Some(message), updated_at: now, ..a }
}

/// An account whose usage could not be read.
pub fn mark_usage_error(account: Account, message: &str, now: i128) -> (r: Account)
    ensures
        r@ == with_usage_error(account@, message@, now),
        r@ == (AccountView { usage_error: Some(message@), updated_at: now, ..account@ }),
{
    let mut a = account;
    a.last_usage_error = Some(message.to_owned());
    a.updated_at = now;
    a
}

/// What deleting an account comes to, by the number of accounts that were deleted.
pub fn delete_account(id: u128, deleted: u64) -> (r: Result<(), AppError>)
    ensures
        failure(r) == if deleted == 0 {
            not_found_of(no_account(id))
        } else {
            None
        },
{
    if deleted == 0 {
        Err(account_not_found(id))
    } else {
        Ok(())
    }
}

/// What is known of an account's requests.
#[derive(Debug)]
pub struct RuntimeState {
    pub request_count: i64,
    pub successful_request_count: i64,
    pub failed_request_count: i64,
    pub input_tokens: i64,
    pub output_tokens: i64,
    pub cooldown_until: Option<i128>,
    pub cooldown_reason: Option<String>,
    pub failure_count: i64,
}

/// What is known of an account once it has to rest.
pub open spec fn rested(
    before: RuntimeState,
    after: RuntimeState,
    seconds: int,
    reason: Seq<char>,
    now: int,
) -> bool {
    &&& match after.cooldown_until {
        Some(t) => time_after(now, seconds) == Some(t as int),
        None => time_after(now, seconds) is None,
    }
    &&& after.cooldown_reason.deep_view() == Some(reason)
    &&& after.failure_count == before.failure_count + 1
    &&& after == (RuntimeState {
        cooldown_until: after.cooldown_until,
        cooldown_reason: after.cooldown_reason,
        failure_count: after.failure_count,
        ..before
    })
}

/// Keeps an account from being used for some seconds. Where the database knows no time so many seconds
/// from now, the account is only noted as having failed.
pub fn cooldown_account(state: &mut RuntimeState, seconds: i64, reason: &str, now: i128)
    requires
        old(state).failure_count < i64::MAX,
        is_time(now as int),
    ensures
        rested(*old(state), *final(state), seconds as int, reason@, now as int),
        match final(state).cooldown_until {
            Some(t) => time_after(now as int, seconds as int) == Some(t as int),
            None => time_after(now as int, seconds as int) is None,
        },
        final(state).cooldown_reason.deep_view() == Some(reason@),
        final(state).failure_count == old(state).failure_count + 1,
        *final(state) == (RuntimeState {
            cooldown_until: final(state).cooldown_until,
            cooldown_reason: final(state).cooldown_reason,
            failure_count: final(state).failure_count,
            ..*old(state)
        }),
{
    state.cooldown_until = seconds_after(now, seconds);
    state.cooldown_reason = Some(reason.to_owned());
    state.failure_count = state.failure_count + 1;
}

/// The counters of the first `n` accounts together.
pub open spec fn sum_of(states: Seq<RuntimeState>, n: int) -> (int, int, int, int, int)
    decreases n,
{
    if n <= 0 {
        (0, 0, 0, 0, 0)
    } else {
        let (a, b, c, d, e) = sum_of(states, n - 1);
        let s = states[n - 1];
        (
            a + s.request_count,
            b + s.successful_request_count,
            c + s.failed_request_count,
            d + s.input_tokens,
            e + s.output_tokens,
        )
    }
}

pub open spec fn fits(sum: (int, int, int, int, int)) -> bool {
    &&& i64::MIN <= sum.0 <= i64::MAX
    &&& i64::MIN <= sum.1 <= i64::MAX
    &&& i64::MIN <= sum.2 <= i64::MAX
    &&& i64::MIN <= sum.3 <= i64::MAX
    &&& i64::MIN <= sum.4 <= i64::MAX
}

pub open spec fn all_fit(states: Seq<RuntimeState>) -> bool {
    forall|n: int| 0 <= n <= states.len() ==> fits(#[trigger] sum_of(states, n))
}

/// How many of the first `n` accounts are active.
pub open spec fn active_of(statuses: Seq<String>, n: int) -> nat
    decreases n,
{
    if n <= 0 {
        0
    } else {
        active_of(statuses, n - 1) + if statuses[n - 1]@ == "active"@ {
            1nat
        } else {
            0
        }
    }
}

/// Totals over all accounts, by their states and their counters; none where a counter runs over.
pub fn usage_summary(statuses: &Vec<String>, states: &Vec<RuntimeState>) -> (r: Option<UsageSummary>)
    requires
        statuses.len() <= i64::MAX,
    ensures
        match r {
            Some(s) => {
                let sum = sum_of(states@, states@.len() as int);
                &&& all_fit(states@)
                &&& s.account_count == statuses@.len()
                &&& s.active_account_count == active_of(statuses@, statuses@.len() as int)
                &&& s.request_count == sum.0
                &&& s.successful_request_count == sum.1
                &&& s.failed_request_count == sum.2
                &&& s.input_tokens == sum.3
                &&& s.output_tokens == sum.4
            },
            None => !all_fit(states@),
        },
{
    let mut s = UsageSummary {
        account_count: statuses.len() as i64,
        active_account_count: 0,
        request_count: 0,
        successful_request_count: 0,
        failed_request_count: 0,
        input_tokens: 0,
        output_tokens: 0,
    };
    let mut i: usize = 0;
    while i < statuses.len()
        invariant
            i <= statuses.len() <= i64::MAX,
            s.account_count == statuses.len(),
            s.active_account_count == active_of(statuses@, i as int),
            s.active_account_count <= i,
            s.request_count == 0,
            s.successful_request_count == 0,
            s.failed_request_count == 0,
            s.input_tokens == 0,
            s.output_tokens == 0,
        decreases statuses.len() - i,
    {
        if same(&statuses[i], "active") {
            s.active_account_count = s.active_account_count + 1;
        }
        i += 1;
    }
    let mut n: usize = 0;
    while n < states.len()
        invariant
            n <= states.len(),
            forall|k: int| 0 <= k <= n ==> fits(#[trigger] sum_of(states@, k)),
            s.account_count == statuses.len(),
            s.active_account_count == active_of(statuses@, statuses@.len() as int),
            sum_of(states@, n as int) == (
                s.request_count as int,
                s.successful_request_count as int,
                s.failed_request_count as int,
                s.input_tokens as int,
                s.output_tokens as int,
            ),
        decreases states.len() - n,
    {
        let state = &states[n];
        assert(!fits(sum_of(states@, n + 1)) ==> !all_fit(states@));
        match (
            s.request_count.checked_add(state.request_count),
            s.successful_request_count.checked_add(state.successful_request_count),
            s.failed_request_count.checked_add(state.failed_request_count),
            s.input_tokens.checked_add(state.input_tokens),
            s.output_tokens.checked_add(state.output_tokens),
        ) {
            (Some(a), Some(b), Some(c), Some(d), Some(e)) => {
                s.request_count = a;
                s.successful_request_count = b;
                s.failed_request_count = c;
                s.input_tokens = d;
                s.output_tokens = e;
            },
            _ => return None,
        }
        n += 1;
    }
    Some(s)
}

/// An update changes neither the identifier, the tokens nor what is known of the usage, and the same
/// update again changes nothing more.
pub proof fn updating_twice_is_updating_once(
    a: AccountView,
    status: Option<Seq<char>>,
    label: Option<Seq<char>>,
    email: Option<Seq<char>>,
    plan: Option<Seq<char>>,
    now: i128,
)
    ensures
        ({
            let once = updated(a, status, label, email, plan, now);
            &&& updated(once, status, label, email, plan, now) == once
            &&& once.id == a.id && once.chatgpt == a.chatgpt
            &&& once.access == a.access && once.refresh == a.refresh && once.id_token == a.id_token
            &&& once.usage_at == a.usage_at && once.usage_error == a.usage_error
        }),
{
}

/// An import never takes the label of an account away, and leaves its identifier and the time of its
/// creation.
pub proof fn imports_keep_known_accounts(
    known: Account,
    fresh_id: u128,
    auth: AuthFile,
    claims: AuthClaims,
    now: i128,
    tokens: AccountView,
)
    requires
        is_known(Some(known), claims),
    ensures
        ({
            let a = imported(Some(known), fresh_id, auth, claims, None, now, tokens);
            a.label == known.label@ && a.id == known.id && a.created_at == known.created_at
                && a.chatgpt == known.chatgpt_account_id.deep_view() && a.status == "active"@
        }),
{
    reveal_strlit("");
}

/// A usage report wakes limited accounts only: a paused account, or one whose tokens no longer work,
/// stays as it is.
pub proof fn usage_wakes_limited_accounts_only(
    a: AccountView,
    plan: Option<Seq<char>>,
    fetched_at: i128,
    now: i128,
)
    ensures
        a.status == "paused"@ || a.status == "auth_failed"@ ==> with_usage(
            a,
            plan,
            fetched_at,
            now,
        ).status == a.status && with_usage(a, plan, fetched_at, now).reason == a.reason,
        is_limited(a.status) ==> with_usage(a, plan, fetched_at, now).status == "active"@,
{
    reveal_strlit("paused");
    reveal_strlit("auth_failed");
    reveal_strlit("rate_limited");
    reveal_strlit("quota_exceeded");
    assert("paused"@.len() == 6 && "auth_failed"@.len() == 11 && "rate_limited"@.len() == 12
        && "quota_exceeded"@.len() == 14);
}

/// The tokens of an account, opened: the first that cannot be is why not.
pub fn open_tokens(crypto: &TokenCrypto, account: &Account) -> (r: Result<AccountTokens, AppError>)
    ensures
        ({
            let access = decrypted(crypto.key(), account@.access);
            let refresh = decrypted(crypto.key(), account@.refresh);
            let id = decrypted(crypto.key(), account@.id_token);
            match r {
                Ok(t) => access == Ok::<Seq<char>, CryptoError>(t.access_token@) && refresh == Ok::<
                    Seq<char>,
                    CryptoError,
                >(t.refresh_token@) && id == Ok::<Seq<char>, CryptoError>(t.id_token@),
                Err(e) => e@.0 == AppErrorKind::Internal && e@.1 == (if access is Err {
                    access->Err_0.text()
                } else if refresh is Err {
                    refresh->Err_0.text()
                } else {
                    id->Err_0.text()
                }) && (access is Err || refresh is Err || id is Err),
            }
        }),
{
    let access_token = match crypto.decrypt(&account.encrypted_access_token) {
        Ok(text) => text,
        Err(e) => return Err(AppError::Internal(e.message().to_owned())),
    };
    let refresh_token = match crypto.decrypt(&account.encrypted_refresh_token) {
        Ok(text) => text,
        Err(e) => return Err(AppError::Internal(e.message().to_owned())),
    };
    let id_token = match crypto.decrypt(&account.encrypted_id_token) {
        Ok(text) => text,
        Err(e) => return Err(AppError::Internal(e.message().to_owned())),
    };
    Ok(AccountTokens { access_token, refresh_token, id_token })
}

/// The tokens of an account that was imported or refreshed are opened as they were sealed.
pub proof fn sealed_tokens_open(key: Seq<u8>, a: AccountView, auth: AuthFile)
    requires
        seals(key, a, auth),
    ensures
        decrypted(key, a.access)->Ok_0 == auth.tokens.access_token@,
        decrypted(key, a.refresh)->Ok_0 == auth.tokens.refresh_token@,
        decrypted(key, a.id_token)->Ok_0 == auth.tokens.id_token@,
{
}

/// The names that the status of an account can have.
pub proof fn statuses_are_five(s: Seq<char>)
    ensures
        is_status(s) <==> s == "active"@ || s == "rate_limited"@ || s == "quota_exceeded"@ || s
            == "paused"@ || s == "auth_failed"@,
        is_limited(s) ==> is_status(s),
        !is_limited("active"@) && !is_limited("paused"@) && !is_limited("auth_failed"@),
{
    reveal_strlit("active");
    reveal_strlit("paused");
    reveal_strlit("auth_failed");
    reveal_strlit("rate_limited");
    reveal_strlit("quota_exceeded");
    assert("active"@.len() == 6 && "paused"@.len() == 6 && "auth_failed"@.len() == 11
        && "rate_limited"@.len() == 12 && "quota_exceeded"@.len() == 14);
}

/// An update changes what it names, each in its own place, and nothing else; the label is brought to
/// its normal form, and an account that is made active again has no reason against it any more.
pub proof fn updates_change_what_they_name(
    a: AccountView,
    status: Option<Seq<char>>,
    label: Option<Seq<char>>,
    email: Option<Seq<char>>,
    plan: Option<Seq<char>>,
    now: i128,
)
    ensures
        ({
            let u = updated(a, status, label, email, plan, now);
            &&& status matches Some(s) ==> u.status == s
            &&& status is None ==> u.status == a.status && u.reason == a.reason
            &&& label matches Some(text) ==> u.label == lower(trimmed(text))
            &&& label is None ==> u.label == a.label
            &&& email matches Some(text) ==> u.email == text
            &&& email is None ==> u.email == a.email
            &&& plan matches Some(text) ==> u.plan == text
            &&& plan is None ==> u.plan == a.plan
            &&& status == Some("active"@) ==> u.reason is None
            &&& status != Some("active"@) ==> u.reason == a.reason
            &&& u.updated_at == now
            &&& u.created_at == a.created_at
            &&& u.last_refresh_at == a.last_refresh_at
            &&& u.expires_at == a.expires_at
        }),
{
}

/// An update is refused for a status that there is not, a label that is none, or an account that is not
/// there, in this order, and for nothing else.
pub proof fn updates_are_refused_for_cause(
    known: Option<Account>,
    id: u128,
    status: Option<Seq<char>>,
    label: Option<Seq<char>>,
)
    ensures
        ({
            let bad_status = status is Some && !(status->0 == "active"@ || status->0
                == "rate_limited"@ || status->0 == "quota_exceeded"@ || status->0 == "paused"@
                || status->0 == "auth_failed"@);
            let bad_label = label is Some && !is_label(lower(trimmed(label->0)));
            let refusal = update_refusal(known, id, status, label);
            &&& refusal is None <==> !bad_status && !bad_label && known is Some
            &&& bad_status ==> (refusal matches Some(e) && e.0 is BadRequest)
            &&& !bad_status && bad_label ==> (refusal matches Some(e) && e.0 is BadRequest)
            &&& !bad_status && !bad_label && known is None ==> (refusal matches Some(e)
                && e.0 is NotFound)
        }),
{
}

/// An import takes the address, the plan, the tokens and their expiry from what is imported, and makes
/// the account active; a label is set where one is given.
pub proof fn imports_take_what_is_imported(
    known: Option<Account>,
    fresh_id: u128,
    auth: AuthFile,
    claims: AuthClaims,
    label: Option<Seq<char>>,
    now: i128,
    tokens: AccountView,
)
    ensures
        ({
            let a = imported(known, fresh_id, auth, claims, label, now, tokens);
            &&& a.email == claims.email@
            &&& a.plan == claims.plan_type@
            &&& a.access == tokens.access
            &&& a.refresh == tokens.refresh
            &&& a.id_token == tokens.id_token
            &&& a.expires_at == claims.access_token_expires_at
            &&& a.status == "active"@
            &&& a.reason is None
            &&& a.updated_at == now
            &&& auth.last_refresh_at matches Some(at) ==> a.last_refresh_at == at
            &&& auth.last_refresh_at is None ==> a.last_refresh_at == now
            &&& label matches Some(text) ==> (normal_label(text).len() > 0 ==> a.label
                == normal_label(text))
            &&& known is None ==> a.id == fresh_id && a.created_at == now && a.usage_at is None
            &&& known is None ==> a.chatgpt == claims.chatgpt_account_id.deep_view()
            &&& known matches Some(k) ==> (claims.chatgpt_account_id is Some
                && k.chatgpt_account_id.deep_view() == claims.chatgpt_account_id.deep_view()
                ==> a.id == k.id && a.created_at == k.created_at)
            &&& known matches Some(k) ==> (claims.chatgpt_account_id is None
                || k.chatgpt_account_id.deep_view() != claims.chatgpt_account_id.deep_view()
                ==> a.id == fresh_id && a.created_at == now)
        }),
{
}

/// A refresh takes the tokens, the address and the plan from what was refreshed, and makes the account
/// active; where the new tokens do not tell the account or their expiry, what was known stays.
pub proof fn refreshes_take_what_is_refreshed(
    a: AccountView,
    claims: AuthClaims,
    now: i128,
    tokens: AccountView,
)
    ensures
        ({
            let r = refreshed_account(a, claims, now, tokens);
            &&& r.access == tokens.access
            &&& r.refresh == tokens.refresh
            &&& r.id_token == tokens.id_token
            &&& r.email == claims.email@
            &&& r.plan == claims.plan_type@
            &&& claims.chatgpt_account_id matches Some(id) ==> r.chatgpt == Some(id@)
            &&& claims.chatgpt_account_id is None ==> r.chatgpt == a.chatgpt
            &&& claims.access_token_expires_at is Some ==> r.expires_at
                == claims.access_token_expires_at
            &&& claims.access_token_expires_at is None ==> r.expires_at == a.expires_at
            &&& r.last_refresh_at == now
            &&& r.status == "active"@
            &&& r.reason is None
            &&& r.updated_at == now
            &&& r.id == a.id && r.label == a.label && r.created_at == a.created_at
            &&& r.usage_at == a.usage_at && r.usage_error == a.usage_error
        }),
{
}

/// A report of usage is refused without a window of Codex; with one, it sets the time of the report and
/// the plan that it names, and ends what went wrong before.
pub proof fn reports_settle_usage(
    a: AccountView,
    plan: Option<Seq<char>>,
    fetched_at: i128,
    now: i128,
    windows: Seq<WindowView>,
    i: int,
)
    ensures
        0 <= i < windows.len() && windows[i].key == "codex"@ ==> has_codex_window(windows),
        windows.len() == 0 ==> !has_codex_window(windows),
        ({
            let u = with_usage(a, plan, fetched_at, now);
            &&& u.usage_at == Some(fetched_at)
            &&& u.usage_error is None
            &&& plan matches Some(text) ==> u.plan == text
            &&& plan is None ==> u.plan == a.plan
            &&& u.updated_at == now
            &&& u.id == a.id && u.label == a.label && u.email == a.email
            &&& u.access == a.access && u.refresh == a.refresh && u.id_token == a.id_token
            &&& a.status == "rate_limited"@ || a.status == "quota_exceeded"@ ==> u.status
                == "active"@ && u.reason is None
            &&& a.status == "active"@ ==> u.status == "active"@ && u.reason == a.reason
        }),
{
    reveal_strlit("active");
    reveal_strlit("rate_limited");
    reveal_strlit("quota_exceeded");
    assert("active"@.len() == 6 && "rate_limited"@.len() == 12 && "quota_exceeded"@.len() == 14);
    if 0 <= i < windows.len() && windows[i].key == "codex"@ {
        assert(windows[i].key == "codex"@);
    }
}

/// An account whose tokens failed keeps all but its status and the reason for it; one whose usage could
/// not be read keeps its status too.
pub proof fn failures_are_noted(a: AccountView, text: Seq<char>, now: i128)
    ensures
        with_auth_failure(a, text, now).status == "auth_failed"@,
        with_auth_failure(a, text, now).reason == Some(text),
        with_auth_failure(a, text, now).access == a.access,
        with_auth_failure(a, text, now).refresh == a.refresh,
        with_auth_failure(a, text, now).usage_error == a.usage_error,
        with_auth_failure(a, text, now).updated_at == now,
        with_usage_error(a, text, now).usage_error == Some(text),
        with_usage_error(a, text, now).status == a.status,
        with_usage_error(a, text, now).reason == a.reason,
        with_usage_error(a, text, now).usage_at == a.usage_at,
        with_usage_error(a, text, now).updated_at == now,
{
}

/// An account that has to rest counts one failure more and says why and until when; its totals stay.
pub proof fn rests_leave_totals(
    before: RuntimeState,
    after: RuntimeState,
    seconds: int,
    reason: Seq<char>,
    now: int,
)
    requires
        rested(before, after, seconds, reason, now),
    ensures
        after.failure_count == before.failure_count + 1,
        after.cooldown_reason matches Some(text) && text@ == reason,
        time_after(now, seconds) matches Some(t) ==> after.cooldown_until is Some
            && after.cooldown_until->0 == t,
        after.request_count == before.request_count,
        after.successful_request_count == before.successful_request_count,
        after.failed_request_count == before.failed_request_count,
        after.input_tokens == before.input_tokens,
        after.output_tokens == before.output_tokens,
{
}

/// The totals of all accounts grow by each account's own, counter by counter, and an account counts as
/// active exactly where its status says so.
pub proof fn summaries_add_up(states: Seq<RuntimeState>, statuses: Seq<String>, n: int)
    requires
        0 <= n,
    ensures
        sum_of(states, n + 1).0 == sum_of(states, n).0 + states[n].request_count,
        sum_of(states, n + 1).1 == sum_of(states, n).1 + states[n].successful_request_count,
        sum_of(states, n + 1).2 == sum_of(states, n).2 + states[n].failed_request_count,
        sum_of(states, n + 1).3 == sum_of(states, n).3 + states[n].input_tokens,
        sum_of(states, n + 1).4 == sum_of(states, n).4 + states[n].output_tokens,
        sum_of(states, 0) == (0int, 0int, 0int, 0int, 0int),
        statuses[n]@ == "active"@ ==> active_of(statuses, n + 1) == active_of(statuses, n) + 1,
        statuses[n]@ != "active"@ ==> active_of(statuses, n + 1) == active_of(statuses, n),
        active_of(statuses, 0) == 0,
{
}

/// An account is seen under its own names.
pub proof fn accounts_are_seen_by_name(a: Account)
    ensures
        a@.id == a.id,
        a@.label == a.label@,
        a@.email == a.email@,
        a@.plan == a.plan_type@,
        a@.access == a.encrypted_access_token@,
        a@.refresh == a.encrypted_refresh_token@,
        a@.id_token == a.encrypted_id_token@,
        a@.last_refresh_at == a.last_refresh_at,
        a@.expires_at == a.access_token_expires_at,
        a@.usage_at == a.last_usage_refresh_at,
        a@.status == a.status@,
        a@.created_at == a.created_at,
        a@.updated_at == a.updated_at,
        a.chatgpt_account_id matches Some(id) ==> a@.chatgpt == Some(id@),
        a.status_reason matches Some(text) ==> a@.reason == Some(text@),
        a.last_usage_error matches Some(text) ==> a@.usage_error == Some(text@),
{
}

/// Sealed tokens open to the tokens that were sealed, each to its own.
pub proof fn seals_keep_tokens_apart(key: Seq<u8>, a: AccountView, auth: AuthFile)
    requires
        seals(key, a, auth),
    ensures
        a.access == a.refresh ==> auth.tokens.access_token@ == auth.tokens.refresh_token@,
        a.access == a.id_token ==> auth.tokens.access_token@ == auth.tokens.id_token@,
        a.refresh == a.id_token ==> auth.tokens.refresh_token@ == auth.tokens.id_token@,
{
}

} // verus!
