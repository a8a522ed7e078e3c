//! The state of the pool as it is reported: which accounts are available, how full their windows
//! are, and which account was selected last.
use vstd::prelude::*;
use crate::double::{at_least, is_nan, order, HUNDRED};
use crate::models::AccountSummary;
use crate::text::{
    before, before_is_strict, before_is_transitive, clone_opt, comes_before, decimal, decimal_text, same,
};
use crate::time::{is_time, span, NANOS};
use crate::usage::PaceMetrics;
use vstd::string::StringExecFns;

verus! {

/// A usage window as it is reported, its percentages as the bits of doubles and as integers in text.
#[derive(Debug)]
pub struct WindowStatus {
    pub quota_key: String,
    pub quota_name: String,
    pub window: String,
    pub used_percent: u64,
    pub used_text: String,
    pub remaining_percent: u64,
    pub remaining_text: String,
    pub window_seconds: Option<i64>,
    pub reset_at: Option<i128>,
    pub fetched_at: i128,
    pub pace: PaceMetrics,
}

/// A window with the account that it belongs to.
#[derive(Debug)]
pub struct AccountWindow {
    pub account_id: u128,
    pub window: WindowStatus,
}

#[derive(Debug)]
pub struct AccountStatus {
    pub id: u128,
    pub label: String,
    pub plan: String,
    pub status: String,
    pub available: bool,
    pub selected: bool,
    pub status_reason: Option<String>,
    pub auth_expires_at: Option<i128>,
    pub last_usage_refresh_at: Option<i128>,
    pub last_usage_error: Option<String>,
    pub last_selected_at: Option<i128>,
    pub last_request_at: Option<i128>,
    pub cooldown_until: Option<i128>,
    pub inflight_requests: i64,
    pub request_count: i64,
    pub input_tokens: i64,
    pub output_tokens: i64,
    pub quotas: Vec<WindowStatus>,
}

#[derive(Debug)]
pub struct PoolStatus {
    pub service: &'static str,
    pub version: &'static str,
    pub healthy: bool,
    pub degraded: bool,
    pub routing_strategy: String,
    pub account_count: usize,
    pub active_account_count: usize,
    pub available_account_count: usize,
    pub inflight_requests: i64,
    pub selected_account: Option<String>,
    pub accounts: Vec<AccountStatus>,
    pub generated_at: i128,
}

/// Whether a percentage is a hundred or more.
pub open spec fn full(used: u64) -> bool {
    !is_nan(used) && order(used) >= order(HUNDRED)
}

pub fn is_full(used: u64) -> (r: bool)
    ensures
        r == full(used),
{
    assert(!is_nan(HUNDRED));
    at_least(used, HUNDRED)
}

/// Whether a window keeps its account from being used.
pub open spec fn blocks(w: WindowStatus, now: i128) -> bool {
    w.quota_key@ == "codex"@ && full(w.used_percent) && (w.reset_at matches Some(at) ==> at > now)
}

pub open spec fn blocked(quotas: Seq<WindowStatus>, now: i128) -> bool {
    exists|i: int| 0 <= i < quotas.len() && blocks(#[trigger] quotas[i], now)
}

/// Whether a time is still to come.
pub open spec fn pending(until: Option<i128>, now: i128) -> bool {
    until matches Some(at) && at > now
}

pub fn is_pending(until: Option<i128>, now: i128) -> (r: bool)
    ensures
        r == pending(until, now),
{
    match until {
        Some(at) => at > now,
        None => false,
    }
}

pub open spec fn shown_label(label: Seq<char>, index: int) -> Seq<char> {
    if label.len() == 0 {
        "account-"@ + decimal(index + 1)
    } else {
        label
    }
}

/// The reason that an account is not used: that of its status, or of its cooldown while it lasts.
pub open spec fn shown_reason(a: AccountSummary, now: i128) -> Option<Seq<char>> {
    if a.status@ != "active"@ {
        a.status_reason.deep_view()
    } else if pending(a.cooldown_until, now) {
        a.cooldown_reason.deep_view()
    } else {
        None
    }
}

/// Whether a status is that of the account at the given place.
pub open spec fn reports(
    s: AccountStatus,
    a: AccountSummary,
    index: int,
    quotas: Seq<WindowStatus>,
    now: i128,
    selected: bool,
) -> bool {
    &&& s.id == a.id
    &&& s.label@ == shown_label(a.label@, index)
    &&& s.plan@ == a.plan_type@
    &&& s.status@ == a.status@
    &&& s.available == (a.status@ == "active"@ && !pending(a.cooldown_until, now) && !blocked(
        quotas,
        now,
    ))
    &&& s.selected == selected
    &&& s.status_reason.deep_view() == shown_reason(a, now)
    &&& s.auth_expires_at == a.access_token_expires_at
    &&& s.last_usage_refresh_at == a.last_usage_refresh_at
    &&& s.last_usage_error.deep_view() == a.last_usage_error.deep_view()
    &&& s.last_selected_at == a.last_selected_at
    &&& s.last_request_at == a.last_request_at
    &&& s.cooldown_until == a.cooldown_until
    &&& s.inflight_requests == a.inflight_count
    &&& s.request_count == a.request_count
    &&& s.input_tokens == a.input_tokens
    &&& s.output_tokens == a.output_tokens
    &&& s.quotas@ == quotas
}

fn any_blocks(quotas: &Vec<WindowStatus>, now: i128) -> (r: bool)
    ensures
        r == blocked(quotas@, now),
{
    let mut i: usize = 0;
    while i < quotas.len()
        invariant
            i <= quotas.len(),
            forall|k: int| 0 <= k < i ==> !blocks(#[trigger] quotas@[k], now),
        decreases quotas.len() - i,
    {
        let window = &quotas[i];
        let lasts = match window.reset_at {
            Some(at) => at > now,
            None => true,
        };
        if same(&window.quota_key, "codex") && is_full(window.used_percent) && lasts {
            assert(blocks(quotas@[i as int], now));
            return true;
        }
        i += 1;
    }
    false
}

/// The status of one account.
pub fn to_account_status(
    account: &AccountSummary,
    index: usize,
    quotas: Vec<WindowStatus>,
    now: i128,
    selected: bool,
) -> (r: AccountStatus)
    ensures
        reports(r, *account, index as int, quotas@, now, selected),
{
    let exhausted = any_blocks(&quotas, now);
    let active = same(&account.status, "active");
    let cooling = is_pending(account.cooldown_until, now);
    let status_reason = if !active {
        clone_opt(&account.status_reason)
    } else if cooling {
        clone_opt(&account.cooldown_reason)
    } else {
        None
    };
    let label = if account.label.as_str().is_empty() {
        let mut text = "account-".to_owned();
        text.append(&decimal_text(index as i128 + 1));
        text
    } else {
        account.label.clone()
    };
    AccountStatus {
        id: account.id,
        label,
        plan: account.plan_type.clone(),
        status: account.status.clone(),
        available: active && !cooling && !exhausted,
        selected,
        status_reason,
        auth_expires_at: account.access_token_expires_at,
        last_usage_refresh_at: account.last_usage_refresh_at,
        last_usage_error: clone_opt(&account.last_usage_error),
        last_selected_at: account.last_selected_at,
        last_request_at: account.last_request_at,
        cooldown_until: account.cooldown_until,
        inflight_requests: account.inflight_count,
        request_count: account.request_count,
        input_tokens: account.input_tokens,
        output_tokens: account.output_tokens,
        quotas,
    }
}

/// Whether a window is listed after another: by the quota, then by the length, an unknown one first.
pub open spec fn listed_after(a: WindowStatus, b: WindowStatus) -> bool {
    before(b.quota_key@, a.quota_key@) || (a.quota_key@ == b.quota_key@ && longer(
        a.window_seconds,
        b.window_seconds,
    ))
}

pub open spec fn longer(a: Option<i64>, b: Option<i64>) -> bool {
    match (a, b) {
        (Some(x), Some(y)) => x > y,
        (Some(_), None) => true,
        _ => false,
    }
}

/// The place of a window in a list: before the first that is listed after it.
pub open spec fn place(list: Seq<WindowStatus>, w: WindowStatus) -> int
    decreases list.len(),
{
    if list.len() == 0 {
        0
    } else if listed_after(list[0], w) {
        0
    } else {
        1 + place(list.drop_first(), w)
    }
}

/// The windows of one account, in the order in which they are listed; where two are alike, in the
/// order in which they came.
pub open spec fn arranged(windows: Seq<AccountWindow>, id: u128) -> Seq<WindowStatus>
    decreases windows.len(),
{
    if windows.len() == 0 {
        Seq::empty()
    } else {
        let head = arranged(windows.drop_last(), id);
        if windows.last().account_id == id {
            head.insert(place(head, windows.last().window), windows.last().window)
        } else {
            head
        }
    }
}

/// The windows that are not those of the account.
pub open spec fn others(windows: Seq<AccountWindow>, id: u128) -> Seq<AccountWindow> {
    windows.filter(|w: AccountWindow| w.account_id != id)
}

/// The windows that the first `n` accounts leave.
pub open spec fn left(windows: Seq<AccountWindow>, accounts: Seq<AccountSummary>, n: int) -> Seq<
    AccountWindow,
>
    decreases n,
{
    if n <= 0 {
        windows
    } else {
        others(left(windows, accounts, n - 1), accounts[n - 1].id)
    }
}

/// Whether the account at a place is the one selected last, the latter of two at one time.
pub open spec fn selected_at(accounts: Seq<AccountSummary>, i: int) -> bool {
    0 <= i < accounts.len() && accounts[i].last_selected_at is Some && forall|j: int|
        0 <= j < accounts.len() && (#[trigger] accounts[j]).last_selected_at is Some
            ==> accounts[j].last_selected_at->0 <= accounts[i].last_selected_at->0 && (j > i
            ==> accounts[j].last_selected_at->0 < accounts[i].last_selected_at->0)
}

/// Whether an identifier is that of the account selected last.
pub open spec fn selected_is(accounts: Seq<AccountSummary>, id: Option<u128>) -> bool {
    match id {
        Some(x) => exists|i: int| #[trigger] selected_at(accounts, i) && accounts[i].id == x,
        None => forall|j: int|
            0 <= j < accounts.len() ==> (#[trigger] accounts[j]).last_selected_at is None,
    }
}

pub fn last_selected(accounts: &Vec<AccountSummary>) -> (r: Option<u128>)
    ensures
        selected_is(accounts@, r),
{
    let mut best: Option<usize> = None;
    let mut i: usize = 0;
    while i < accounts.len()
        invariant
            i <= accounts.len(),
            match best {
                Some(b) => b < i && selected_at(accounts@.take(i as int), b as int),
                None => forall|j: int|
                    0 <= j < i ==> (#[trigger] accounts@[j]).last_selected_at is None,
            },
        decreases accounts.len() - i,
    {
        let ghost p = accounts@.take(i as int);
        let ghost q = accounts@.take(i as int + 1);
        assert(forall|j: int| 0 <= j < i ==> #[trigger] q[j] == p[j]);
        assert(q[i as int] == accounts@[i as int]);
        if let Some(time) = accounts[i].last_selected_at {
            let later = match best {
                Some(b) => match accounts[b].last_selected_at {
                    Some(known) => time >= known,
                    None => true,
                },
                None => true,
            };
            if later {
                best = Some(i);
            }
        }
        i += 1;
    }
    assert(accounts@.take(accounts@.len() as int) =~= accounts@);
    match best {
        Some(b) => Some(accounts[b].id),
        None => None,
    }
}

fn is_listed_after(a: &WindowStatus, b: &WindowStatus) -> (r: bool)
    ensures
        r == listed_after(*a, *b),
{
    let longer = match (a.window_seconds, b.window_seconds) {
        (Some(x), Some(y)) => x > y,
        (Some(_), None) => true,
        _ => false,
    };
    comes_before(&b.quota_key, &a.quota_key) || (same(&a.quota_key, &b.quota_key) && longer)
}

fn arrange(list: &mut Vec<WindowStatus>, w: WindowStatus)
    ensures
        final(list)@ == old(list)@.insert(place(old(list)@, w), w),
        0 <= place(old(list)@, w) <= old(list)@.len(),
{
    let ghost all = list@;
    let mut at: usize = 0;
    assert(all.skip(0) =~= all);
    while at < list.len() && !is_listed_after(&list[at], &w)
        invariant
            at <= list.len(),
            list@ == all,
            place(all, w) == at + place(all.skip(at as int), w),
        decreases list.len() - at,
    {
        assert(all.skip(at as int).drop_first() =~= all.skip(at + 1));
        assert(all.skip(at as int)[0] == all[at as int]);
        at += 1;
    }
    assert(place(all.skip(at as int), w) == 0) by {
        if at < all.len() {
            assert(all.skip(at as int)[0] == all[at as int]);
        }
    }
    list.insert(at, w);
}

/// Takes the windows of an account out of a list.
fn take_windows(windows: &mut Vec<AccountWindow>, id: u128) -> (r: Vec<WindowStatus>)
    ensures
        r@ == arranged(old(windows)@, id),
        final(windows)@ == others(old(windows)@, id),
{
    let ghost all = windows@;
    let mut kept: Vec<AccountWindow> = Vec::new();
    let mut quotas: Vec<WindowStatus> = Vec::new();
    let ghost mut k: int = 0;
    proof {
        assert(all.take(0) =~= Seq::empty());
        assert(all.skip(0) =~= all);
        reveal(Seq::filter);
        assert(others(all.take(0), id) =~= Seq::empty());
    }
    while windows.len() > 0
        invariant
            0 <= k <= all.len(),
            windows@ == all.skip(k),
            quotas@ == arranged(all.take(k), id),
            kept@ == others(all.take(k), id),
        decreases windows.len(),
    {
        let w = windows.remove(0);
        proof {
            let next = all.take(k + 1);
            assert(next.drop_last() =~= all.take(k));
            assert(next.last() == w);
            assert(windows@ =~= all.skip(k + 1));
            reveal(Seq::filter);
            k = k + 1;
        }
        if w.account_id == id {
            arrange(&mut quotas, w.window);
        } else {
            kept.push(w);
        }
    }
    assert(all.take(all.len() as int) =~= all);
    *windows = kept;
    quotas
}

/// The sum of the requests in flight of the first `n` accounts.
pub open spec fn inflight(accounts: Seq<AccountSummary>, n: int) -> int
    decreases n,
{
    if n <= 0 {
        0
    } else {
        inflight(accounts, n - 1) + accounts[n - 1].inflight_count
    }
}

/// How many of the first `n` accounts are available.
pub open spec fn available_count(accounts: Seq<AccountStatus>, n: int) -> nat
    decreases n,
{
    if n <= 0 {
        0
    } else {
        available_count(accounts, n - 1) + if accounts[n - 1].available {
            1nat
        } else {
            0
        }
    }
}

/// How many of the first `n` accounts are active.
pub open spec fn active_count(accounts: Seq<AccountStatus>, n: int) -> nat
    decreases n,
{
    if n <= 0 {
        0
    } else {
        active_count(accounts, n - 1) + if accounts[n - 1].status@ == "active"@ {
            1nat
        } else {
            0
        }
    }
}

/// The seconds after which usage is stale: four refresh intervals, or ten minutes where those are
/// more than a span can have.
pub open spec fn stale_seconds(interval: u64) -> int {
    if interval * 4 <= 9223372036854775 {
        interval * 4
    } else {
        600
    }
}

/// Whether the usage of an account is not known as it should be.
pub open spec fn stale(a: AccountStatus, interval: u64, now: i128) -> bool {
    a.last_usage_error is Some || match a.last_usage_refresh_at {
        Some(at) => now - at > stale_seconds(interval) * NANOS,
        None => true,
    }
}

/// The label of the first account with an identifier.
pub open spec fn label_of(accounts: Seq<AccountStatus>, id: u128) -> Option<Seq<char>>
    decreases accounts.len(),
{
    if accounts.len() == 0 {
        None
    } else if accounts[0].id == id {
        Some(accounts[0].label@)
    } else {
        label_of(accounts.drop_first(), id)
    }
}

/// Whether a status is that of the pool with the given accounts and windows.
pub open spec fn describes(
    s: PoolStatus,
    accounts: Seq<AccountSummary>,
    windows: Seq<AccountWindow>,
    interval: u64,
    now: i128,
    chosen: Option<u128>,
) -> bool {
    let n = accounts.len() as int;
    let ready = available_count(s.accounts@, n);
    &&& selected_is(accounts, chosen)
    &&& s.accounts@.len() == n
    &&& forall|i: int|
        0 <= i < n ==> reports(
            #[trigger] s.accounts@[i],
            accounts[i],
            i,
            arranged(left(windows, accounts, i), accounts[i].id),
            now,
            chosen == Some(accounts[i].id),
        )
    &&& s.account_count == n
    &&& s.active_account_count == active_count(s.accounts@, n)
    &&& s.available_account_count == ready
    &&& s.healthy == (ready > 0)
    &&& s.degraded == (n == 0 || ready < n || exists|i: int|
        0 <= i < n && stale(#[trigger] s.accounts@[i], interval, now))
    &&& s.inflight_requests == inflight(accounts, n)
    &&& s.selected_account.deep_view() == match chosen {
        Some(id) => label_of(s.accounts@, id),
        None => None,
    }
    &&& s.generated_at == now
}

fn is_stale(a: &AccountStatus, interval: u64, now: i128) -> (r: bool)
    requires
        interval * 4 <= u64::MAX,
        is_time(now as int),
        a.last_usage_refresh_at matches Some(at) ==> is_time(at as int),
    ensures
        r == stale(*a, interval, now),
{
    if a.last_usage_error.is_some() {
        return true;
    }
    let limit: i128 = if interval * 4 <= 9223372036854775 {
        (interval * 4) as i128
    } else {
        600
    };
    match a.last_usage_refresh_at {
        Some(at) => span(at, now) > limit * NANOS,
        None => true,
    }
}

fn find_label(accounts: &Vec<AccountStatus>, id: u128) -> (r: Option<String>)
    ensures
        r.deep_view() == label_of(accounts@, id),
{
    let mut i: usize = 0;
    assert(accounts@.skip(0) =~= accounts@);
    while i < accounts.len()
        invariant
            i <= accounts.len(),
            label_of(accounts@, id) == label_of(accounts@.skip(i as int), id),
        decreases accounts.len() - i,
    {
        assert(accounts@.skip(i as int).drop_first() =~= accounts@.skip(i + 1));
        if accounts[i].id == id {
            return Some(accounts[i].label.clone());
        }
        i += 1;
    }
    None
}

/// The status of the pool.
pub fn build_status(
    accounts: &Vec<AccountSummary>,
    windows: Vec<AccountWindow>,
    routing_strategy: &str,
    version: &'static str,
    usage_refresh_interval: u64,
    now: i128,
) -> (r: PoolStatus)
    requires
        usage_refresh_interval * 4 <= u64::MAX,
        is_time(now as int),
        forall|i: int|
            0 <= i < accounts.len() ==> ((#[trigger] accounts@[i]).last_usage_refresh_at matches Some(
                at,
            ) ==> is_time(at as int)),
        forall|n: int|
            0 <= n <= accounts.len() ==> i64::MIN <= #[trigger] inflight(accounts@, n) <= i64::MAX,
    ensures
        r.service@ == "codex-lb-rs"@,
        r.version == version,
        r.routing_strategy@ == routing_strategy@,
        exists|chosen: Option<u128>| #[trigger]
            describes(r, accounts@, windows@, usage_refresh_interval, now, chosen),
{
    let ghost all = windows@;
    let mut rest = windows;
    let selected = last_selected(accounts);
    let mut statuses: Vec<AccountStatus> = Vec::new();
    let mut flying: i64 = 0;
    let mut ready: usize = 0;
    let mut active: usize = 0;
    let mut doubtful = false;
    let mut i: usize = 0;
    while i < accounts.len()
        invariant
            i <= accounts.len(),
            statuses.len() == i,
            usage_refresh_interval * 4 <= u64::MAX,
            is_time(now as int),
            forall|k: int|
                0 <= k < accounts.len() ==> (
                (#[trigger] accounts@[k]).last_usage_refresh_at matches Some(at) ==> is_time(
                    at as int,
                )),
            forall|n: int|
                0 <= n <= accounts.len() ==> i64::MIN <= #[trigger] inflight(accounts@, n)
                    <= i64::MAX,
            rest@ == left(all, accounts@, i as int),
            forall|k: int|
                0 <= k < i ==> reports(
                    #[trigger] statuses@[k],
                    accounts@[k],
                    k,
                    arranged(left(all, accounts@, k), accounts@[k].id),
                    now,
                    selected == Some(accounts@[k].id),
                ),
            flying == inflight(accounts@, i as int),
            ready == available_count(statuses@, i as int),
            active == active_count(statuses@, i as int),
            ready <= i,
            active <= i,
            doubtful == exists|k: int|
                0 <= k < i && stale(#[trigger] statuses@[k], usage_refresh_interval, now),
        decreases accounts.len() - i,
    {
        let account = &accounts[i];
        let quotas = take_windows(&mut rest, account.id);
        let status = to_account_status(account, i, quotas, now, selected == Some(account.id));
        assert(i64::MIN <= inflight(accounts@, i + 1) <= i64::MAX);
        flying = flying + account.inflight_count;
        if status.available {
            ready += 1;
        }
        if same(&status.status, "active") {
            active += 1;
        }
        let unknown = is_stale(&status, usage_refresh_interval, now);
        let ghost known = statuses@;
        statuses.push(status);
        proof {
            assert(statuses@.drop_last() =~= known);
            counts_stay(known, statuses@, i as int);
            if doubtful {
                let k = choose|k: int|
                    0 <= k < i && stale(#[trigger] known[k], usage_refresh_interval, now);
                assert(statuses@[k] == known[k]);
            }
            if unknown {
                assert(stale(statuses@[i as int], usage_refresh_interval, now));
            }
        }
        doubtful = doubtful || unknown;
        i += 1;
    }
    let selected_account = match selected {
        Some(id) => find_label(&statuses, id),
        None => None,
    };
    let r = PoolStatus {
        service: "codex-lb-rs",
        version,
        healthy: ready > 0,
        degraded: statuses.len() == 0 || ready < statuses.len() || doubtful,
        routing_strategy: routing_strategy.to_owned(),
        account_count: statuses.len(),
        active_account_count: active,
        available_account_count: ready,
        inflight_requests: flying,
        selected_account,
        accounts: statuses,
        generated_at: now,
    };
    assert(describes(r, accounts@, all, usage_refresh_interval, now, selected));
    r
}

proof fn counts_stay(a: Seq<AccountStatus>, b: Seq<AccountStatus>, n: int)
    requires
        0 <= n <= a.len() <= b.len(),
        forall|k: int| 0 <= k < n ==> #[trigger] b[k] == a[k],
    ensures
        available_count(a, n) == available_count(b, n),
        active_count(a, n) == active_count(b, n),
    decreases n,
{
    if n > 0 {
        counts_stay(a, b, n - 1);
    }
}

proof fn listing_is_transitive(a: WindowStatus, b: WindowStatus, c: WindowStatus)
    requires
        listed_after(a, b),
        listed_after(b, c),
    ensures
        listed_after(a, c),
{
    if before(c.quota_key@, b.quota_key@) && before(b.quota_key@, a.quota_key@) {
        before_is_transitive(c.quota_key@, b.quota_key@, a.quota_key@);
    }
}

proof fn place_divides(list: Seq<WindowStatus>, w: WindowStatus)
    ensures
        0 <= place(list, w) <= list.len(),
        forall|i: int| 0 <= i < place(list, w) ==> !listed_after(#[trigger] list[i], w),
        place(list, w) < list.len() ==> listed_after(list[place(list, w)], w),
    decreases list.len(),
{
    if list.len() > 0 && !listed_after(list[0], w) {
        let rest = list.drop_first();
        place_divides(rest, w);
        assert forall|i: int| 0 <= i < place(list, w) implies !listed_after(
            #[trigger] list[i],
            w,
        ) by {
            if i > 0 {
                assert(rest[i - 1] == list[i]);
            }
        }
    }
}

/// The windows of an account are listed in order.
pub proof fn windows_are_in_order(windows: Seq<AccountWindow>, id: u128)
    ensures
        forall|i: int, j: int|
            0 <= i < j < arranged(windows, id).len() ==> !listed_after(
                #[trigger] arranged(windows, id)[i],
                #[trigger] arranged(windows, id)[j],
            ),
    decreases windows.len(),
{
    if windows.len() > 0 {
        let head = arranged(windows.drop_last(), id);
        windows_are_in_order(windows.drop_last(), id);
        if windows.last().account_id == id {
            let w = windows.last().window;
            let p = place(head, w);
            let all = arranged(windows, id);
            place_divides(head, w);
            assert forall|i: int, j: int| 0 <= i < j < all.len() implies !listed_after(
                #[trigger] all[i],
                #[trigger] all[j],
            ) by {
                if i == p {
                    assert(all[j] == head[j - 1]);
                    if listed_after(w, head[j - 1]) {
                        listing_is_transitive(head[p], w, head[j - 1]);
                        if p < j - 1 {
                            assert(!listed_after(head[p], head[j - 1]));
                        } else {
                            before_is_strict(head[p].quota_key@, head[p].quota_key@);
                        }
                    }
                } else if j == p {
                    assert(all[i] == head[i]);
                } else {
                    let a = if i < p { i } else { i - 1 };
                    let b = if j < p { j } else { j - 1 };
                    assert(all[i] == head[a] && all[j] == head[b]);
                }
            }
        }
    }
}

/// The windows of an account are all listed, each once.
pub proof fn windows_are_all_listed(windows: Seq<AccountWindow>, id: u128)
    ensures
        arranged(windows, id).to_multiset() == windows.filter(
            |w: AccountWindow| w.account_id == id,
        ).map_values(|w: AccountWindow| w.window).to_multiset(),
    decreases windows.len(),
{
    let mine = |w: AccountWindow| w.account_id == id;
    let inner = |w: AccountWindow| w.window;
    reveal(Seq::filter);
    if windows.len() > 0 {
        let start = windows.drop_last();
        let head = arranged(start, id);
        windows_are_all_listed(start, id);
        if windows.last().account_id == id {
            let w = windows.last().window;
            place_divides(head, w);
            vstd::seq_lib::to_multiset_insert(head, place(head, w), w);
            assert(windows.filter(mine).map_values(inner) =~= start.filter(mine).map_values(
                inner,
            ).push(w));
            vstd::seq_lib::to_multiset_build(start.filter(mine).map_values(inner), w);
        }
    } else {
        assert(windows.filter(mine).map_values(inner) =~= Seq::<WindowStatus>::empty());
    }
}

/// An account is shown as available exactly where it is active, does not have to rest, and has no window
/// of Codex that is used up with its reset still ahead or unknown.
pub proof fn availability_is_shown_as_it_is(
    s: AccountStatus,
    a: AccountSummary,
    index: int,
    quotas: Seq<WindowStatus>,
    now: i128,
    selected: bool,
)
    requires
        reports(s, a, index, quotas, now, selected),
    ensures
        s.available <==> {
            &&& a.status@ == "active"@
            &&& a.cooldown_until is None || a.cooldown_until->0 <= now
            &&& forall|i: int|
                #![trigger quotas[i]]
                0 <= i < quotas.len() ==> {
                    ||| quotas[i].quota_key@ != "codex"@
                    ||| quotas[i].used_percent < 0x4059_0000_0000_0000
                    ||| quotas[i].used_percent > 0x7ff0_0000_0000_0000
                    ||| quotas[i].reset_at is Some && quotas[i].reset_at->0 <= now
                }
        },
{
    let free = forall|i: int|
        #![trigger quotas[i]]
        0 <= i < quotas.len() ==> {
            ||| quotas[i].quota_key@ != "codex"@
            ||| quotas[i].used_percent < 0x4059_0000_0000_0000
            ||| quotas[i].used_percent > 0x7ff0_0000_0000_0000
            ||| quotas[i].reset_at is Some && quotas[i].reset_at->0 <= now
        };
    if blocked(quotas, now) {
        let i = choose|i: int| 0 <= i < quotas.len() && blocks(#[trigger] quotas[i], now);
        let w = quotas[i];
        assert(!free);
    } else {
        assert forall|i: int| #![trigger quotas[i]] 0 <= i < quotas.len() implies {
            ||| quotas[i].quota_key@ != "codex"@
            ||| quotas[i].used_percent < 0x4059_0000_0000_0000
            ||| quotas[i].used_percent > 0x7ff0_0000_0000_0000
            ||| quotas[i].reset_at is Some && quotas[i].reset_at->0 <= now
        } by {
            assert(!blocks(quotas[i], now));
        }
    }
}

/// What is shown of an account is its own, each under its own name; an account without a label is named
/// by its place.
pub proof fn accounts_are_shown_by_name(
    s: AccountStatus,
    a: AccountSummary,
    index: int,
    quotas: Seq<WindowStatus>,
    now: i128,
    selected: bool,
)
    requires
        reports(s, a, index, quotas, now, selected),
    ensures
        s.id == a.id,
        a.label@.len() > 0 ==> s.label@ == a.label@,
        a.label@.len() == 0 ==> s.label@ == "account-"@ + decimal(index + 1),
        s.plan@ == a.plan_type@,
        s.status@ == a.status@,
        s.selected == selected,
        s.auth_expires_at == a.access_token_expires_at,
        s.last_usage_refresh_at == a.last_usage_refresh_at,
        s.last_selected_at == a.last_selected_at,
        s.last_request_at == a.last_request_at,
        s.cooldown_until == a.cooldown_until,
        s.inflight_requests == a.inflight_count,
        s.request_count == a.request_count,
        s.input_tokens == a.input_tokens,
        s.output_tokens == a.output_tokens,
        s.quotas@ == quotas,
        a.status@ != "active"@ ==> s.status_reason.deep_view() == a.status_reason.deep_view(),
        a.status@ == "active"@ && a.cooldown_until is Some && a.cooldown_until->0 > now
            ==> s.status_reason.deep_view() == a.cooldown_reason.deep_view(),
        a.status@ == "active"@ && (a.cooldown_until is None || a.cooldown_until->0 <= now)
            ==> s.status_reason is None,
{
}

proof fn available_are_counted(accounts: Seq<AccountStatus>, n: int)
    requires
        0 <= n <= accounts.len(),
    ensures
        available_count(accounts, n) <= n,
        available_count(accounts, n) > 0 <==> exists|i: int|
            0 <= i < n && (#[trigger] accounts[i]).available,
        available_count(accounts, n) == n <==> forall|i: int|
            0 <= i < n ==> (#[trigger] accounts[i]).available,
    decreases n,
{
    if n > 0 {
        available_are_counted(accounts, n - 1);
        if available_count(accounts, n) > 0 {
            if accounts[n - 1].available {
                assert(accounts[n - 1].available);
            }
        }
    }
}

/// The pool is healthy where one account is available, and degraded where one is not, where there is
/// none, or where the usage of one is out of date; its totals are those of its accounts.
pub proof fn pools_are_as_their_accounts(
    s: PoolStatus,
    accounts: Seq<AccountSummary>,
    windows: Seq<AccountWindow>,
    interval: u64,
    now: i128,
    chosen: Option<u128>,
)
    requires
        describes(s, accounts, windows, interval, now, chosen),
    ensures
        s.healthy <==> exists|i: int|
            0 <= i < accounts.len() && (#[trigger] s.accounts@[i]).available,
        s.degraded <==> accounts.len() == 0 || (exists|i: int|
            0 <= i < accounts.len() && !(#[trigger] s.accounts@[i]).available) || (exists|i: int|
            0 <= i < accounts.len() && stale(#[trigger] s.accounts@[i], interval, now)),
        s.account_count == accounts.len(),
        s.available_account_count <= s.account_count,
        s.generated_at == now,
        accounts.len() == 0 ==> !s.healthy && s.degraded,
{
    available_are_counted(s.accounts@, accounts.len() as int);
    let n = accounts.len() as int;
    let ready = available_count(s.accounts@, n);
    if ready < n {
        let i = choose|i: int| 0 <= i < n && !(#[trigger] s.accounts@[i]).available;
        assert(!s.accounts@[i].available);
    }
}

/// The account that was selected last is the one with the latest selection.
pub proof fn the_last_selection_is_shown(accounts: Seq<AccountSummary>, id: u128, j: int)
    requires
        selected_is(accounts, Some(id)),
        0 <= j < accounts.len(),
    ensures
        exists|i: int|
            0 <= i < accounts.len() && (#[trigger] accounts[i]).id == id
                && accounts[i].last_selected_at is Some && (accounts[j].last_selected_at is Some
                ==> accounts[j].last_selected_at->0 <= accounts[i].last_selected_at->0),
{
    let i = choose|i: int| #[trigger] selected_at(accounts, i) && accounts[i].id == id;
    assert(accounts[i].id == id);
}

/// The usage of an account is out of date where it could not be read, was never read, or was read
/// longer ago than four times the interval.
pub proof fn old_usage_is_out_of_date(a: AccountStatus, interval: u64, now: i128)
    requires
        interval <= 2_000_000_000_000_000,
    ensures
        a.last_usage_error is Some ==> stale(a, interval, now),
        a.last_usage_refresh_at is None ==> stale(a, interval, now),
        a.last_usage_error is None && a.last_usage_refresh_at is Some ==> (stale(a, interval, now)
            <==> now - a.last_usage_refresh_at->0 > 4 * interval * 1_000_000_000),
{
}

/// Windows are listed by quota, and those of one quota from the shorter to the longer.
pub proof fn shorter_windows_come_first(a: WindowStatus, b: WindowStatus, m: i64, n: i64)
    requires
        a.quota_key@ == b.quota_key@,
        a.window_seconds == Some(m),
        b.window_seconds == Some(n),
    ensures
        m > n ==> listed_after(a, b) && !listed_after(b, a),
        m == n ==> !listed_after(a, b) && !listed_after(b, a),
{
    before_is_strict(a.quota_key@, b.quota_key@);
}

/// Counts of accounts and of requests grow account by account.
pub proof fn pool_counts_add_up(accounts: Seq<AccountSummary>, shown: Seq<AccountStatus>, n: int)
    requires
        0 <= n,
    ensures
        inflight(accounts, 0) == 0,
        inflight(accounts, n + 1) == inflight(accounts, n) + accounts[n].inflight_count,
        active_count(shown, 0) == 0,
        shown[n].status@ == "active"@ ==> active_count(shown, n + 1) == active_count(shown, n) + 1,
        shown[n].status@ != "active"@ ==> active_count(shown, n + 1) == active_count(shown, n),
{
}

/// A label is found by its account.
pub proof fn labels_are_found_by_account(accounts: Seq<AccountStatus>, id: u128, i: int)
    requires
        0 <= i < accounts.len(),
        accounts[i].id == id,
        forall|j: int| 0 <= j < i ==> (#[trigger] accounts[j]).id != id,
    ensures
        label_of(accounts, id) == Some(accounts[i].label@),
    decreases i,
{
    if i > 0 {
        assert(accounts[0].id != id);
        let rest = accounts.drop_first();
        assert forall|j: int| 0 <= j < i - 1 implies (#[trigger] rest[j]).id != id by {
            assert(rest[j] == accounts[j + 1]);
        }
        labels_are_found_by_account(rest, id, i - 1);
    }
}

proof fn others_keep_the_rest(windows: Seq<AccountWindow>, gone: u128, id: u128)
    requires
        gone != id,
    ensures
        arranged(others(windows, gone), id) == arranged(windows, id),
    decreases windows.len(),
{
    let kept = |w: AccountWindow| w.account_id != gone;
    reveal(Seq::filter);
    if windows.len() > 0 {
        let start = windows.drop_last();
        others_keep_the_rest(start, gone, id);
        if kept(windows.last()) {
            let all = others(windows, gone);
            assert(all == others(start, gone).push(windows.last()));
            assert(all.drop_last() =~= others(start, gone));
        } else {
            assert(others(windows, gone) == others(start, gone));
        }
    }
}

/// Every account is shown with all of its windows: what is shown of the accounts before it takes none
/// of them away.
pub proof fn accounts_are_shown_with_their_windows(
    windows: Seq<AccountWindow>,
    accounts: Seq<AccountSummary>,
    n: int,
    id: u128,
)
    requires
        0 <= n <= accounts.len(),
        forall|j: int| 0 <= j < n ==> (#[trigger] accounts[j]).id != id,
    ensures
        arranged(left(windows, accounts, n), id) == arranged(windows, id),
    decreases n,
{
    if n > 0 {
        assert(accounts[n - 1].id != id);
        accounts_are_shown_with_their_windows(windows, accounts, n - 1, id);
        others_keep_the_rest(left(windows, accounts, n - 1), accounts[n - 1].id, id);
    }
}

} // verus!
