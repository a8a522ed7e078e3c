//! Refreshing tokens and usage: what is asked of the upstream, and when it is asked again.
use vstd::prelude::*;
use crate::accounts::{Account, AccountView};
use crate::auth_file::{claims_from_auth, tokens_claims, AuthClaims, AuthFile, AuthTokens, AuthView};
use crate::config::{no_slashes, usage_url, Config};
use crate::error::{AppError, AppErrorKind};
use crate::json::{
    answer_value, entry_views, members_are_first_entries, put, read_answer_text, written, Json,
    JsonView,
};
use crate::text::{concat, occurs, same};
use crate::upstream::{
    header_views, is_auth_error, make_header, read_usage_report, refreshed, refuses_tokens,
    text_header, Header,
    UpstreamRequest,
};

verus! {

/// Whether one of the tokens of an account has changed.
pub open spec fn tokens_changed(observed: AccountView, account: AccountView) -> bool {
    account.refresh != observed.refresh || account.access != observed.access
}

/// Whether an account's tokens are others than those that were seen before: they were refreshed
/// meanwhile, and need not be again.
pub fn was_refreshed(observed: &Account, account: &Account) -> (r: bool)
    ensures
        r == tokens_changed(observed@, account@),
        r == (account@.refresh != observed@.refresh || account@.access != observed@.access),
{
    !same(&account.encrypted_refresh_token, &observed.encrypted_refresh_token) || !same(
        &account.encrypted_access_token,
        &observed.encrypted_access_token,
    )
}

pub open spec fn refresh_json(client: Seq<char>, token: Seq<char>, scope: Seq<char>) -> JsonView {
    JsonView::Object(
        seq![
            ("grant_type"@, JsonView::Str("refresh_token"@)),
            ("client_id"@, JsonView::Str(client)),
            ("refresh_token"@, JsonView::Str(token)),
            ("scope"@, JsonView::Str(scope)),
        ],
    )
}

/// The body of the request for new tokens.
pub fn token_refresh_body(config: &Config, refresh_token: &str) -> (r: Json)
    ensures
        r@ == refresh_json(config.oauth_client_id@, refresh_token@, config.oauth_scope@),
{
    let mut entries: Vec<(String, Json)> = Vec::new();
    put(&mut entries, "grant_type", Json::of_text("refresh_token"));
    put(&mut entries, "client_id", Json::of_text(&config.oauth_client_id));
    put(&mut entries, "refresh_token", Json::of_text(refresh_token));
    put(&mut entries, "scope", Json::of_text(&config.oauth_scope));
    assert(entry_views(entries@) =~= refresh_json(
        config.oauth_client_id@,
        refresh_token@,
        config.oauth_scope@,
    )->Object_0);
    Json::object(entries)
}

/// New tokens as a credential file, with what they claim.
pub fn refreshed_auth(tokens: AuthTokens, now: i128) -> (r: (AuthFile, AuthClaims))
    ensures
        r.0@ == (AuthView { api_key: None, tokens: tokens@, last_refresh_at: Some(now) }),
        r.1@ == tokens_claims(tokens@),
{
    let auth = AuthFile { openai_api_key: None, tokens, last_refresh_at: Some(now) };
    let claims = claims_from_auth(&auth);
    (auth, claims)
}

/// The request for the usage of an account.
pub fn usage_request(config: &Config, access_token: &str, account_id: &Option<String>) -> (r:
    UpstreamRequest)
    ensures
        r.url@ == usage_url(no_slashes(config.upstream_base_url@)),
        header_views(r.headers@) == ({
            let own = seq![
                text_header("authorization"@, "Bearer "@ + access_token@),
                text_header("accept"@, "application/json"@),
            ];
            match account_id.deep_view() {
                Some(id) => own.push(text_header("chatgpt-account-id"@, id)),
                None => own,
            }
        }),
{
    let mut headers: Vec<Header> = Vec::new();
    headers.push(make_header("authorization", &concat("Bearer ", access_token)));
    headers.push(make_header("accept", "application/json"));
    let ghost own = seq![
        text_header("authorization"@, "Bearer "@ + access_token@),
        text_header("accept"@, "application/json"@),
    ];
    assert(header_views(headers@) =~= own);
    if let Some(id) = account_id {
        headers.push(make_header("chatgpt-account-id", id));
        assert(header_views(headers@) =~= own.push(text_header("chatgpt-account-id"@, id@)));
    }
    UpstreamRequest { url: config.upstream_usage_url(), headers }
}

/// The usage report in an answer. `status` is its status in words.
pub fn read_usage_answer(success: bool, status: &str, text: &str) -> (r: Result<Json, AppError>)
    ensures
        ({
            let v = answer_value(text@, 1000);
            match r {
                Ok(report) => success && !(v is Str) && report@ == v,
                Err(e) => e@.0 == AppErrorKind::Upstream && e@.1 == if !success {
                    "usage request failed ("@ + status@ + "): "@ + written(v)
                } else {
                    "usage response was not valid JSON"@
                } && (success ==> v is Str),
            }
        }),
{
    let (value, shown) = read_answer_text(text, 1000);
    read_usage_report(success, status, &shown, Some(value))
}

/// Whether a failed report is asked for again, with new tokens.
pub open spec fn asks_again(error: (AppErrorKind, Seq<char>), refreshed: bool) -> bool {
    !refreshed && refuses_tokens(error)
}

/// Whether a request for usage that failed is made again with new tokens: once, where the tokens
/// were why.
pub fn retries_usage(error: &AppError, refreshed: bool) -> (r: bool)
    ensures
        r == asks_again(error@, refreshed),
        r == (!refreshed && error@.0 == AppErrorKind::Upstream && (occurs(error@.1, "401"@)
            || occurs(error@.1, "403"@))),
{
    !refreshed && is_auth_error(error)
}

/// Tokens have changed where the refresh token has or the access token has, and not otherwise.
pub proof fn either_token_tells_a_refresh(observed: AccountView, account: AccountView)
    ensures
        account.refresh != observed.refresh ==> tokens_changed(observed, account),
        account.access != observed.access ==> tokens_changed(observed, account),
        account.refresh == observed.refresh && account.access == observed.access
            ==> !tokens_changed(observed, account),
{
}

/// A report is asked for again only once, and only where the upstream refused the tokens.
pub proof fn reports_are_asked_for_twice_at_most(error: (AppErrorKind, Seq<char>))
    ensures
        !asks_again(error, true),
        asks_again(error, false) <==> error.0 is Upstream && (occurs(error.1, "401"@) || occurs(
            error.1,
            "403"@,
        )),
{
}

/// The request for new tokens carries the refresh token, the client and the scope, each under its name.
pub proof fn refreshes_carry_the_refresh_token(
    client: Seq<char>,
    token: Seq<char>,
    scope: Seq<char>,
)
    ensures
        refresh_json(client, token, scope).get("grant_type"@) == Some(
            JsonView::Str("refresh_token"@),
        ),
        refresh_json(client, token, scope).get("refresh_token"@) == Some(JsonView::Str(token)),
        refresh_json(client, token, scope).get("client_id"@) == Some(JsonView::Str(client)),
        refresh_json(client, token, scope).get("scope"@) == Some(JsonView::Str(scope)),
{
    let v = refresh_json(client, token, scope);
    reveal_strlit("grant_type");
    reveal_strlit("client_id");
    reveal_strlit("refresh_token");
    reveal_strlit("scope");
    assert("grant_type"@.len() == 10);
    assert("client_id"@.len() == 9);
    assert("refresh_token"@.len() == 13);
    assert("scope"@.len() == 5);
    let e = v->Object_0;
    assert(e[0].0 == "grant_type"@ && e[1].0 == "client_id"@ && e[2].0 == "refresh_token"@ && e[3].0
        == "scope"@);
    members_are_first_entries(v, "grant_type"@);
    members_are_first_entries(v, "client_id"@);
    members_are_first_entries(v, "refresh_token"@);
    members_are_first_entries(v, "scope"@);
}

} // verus!
