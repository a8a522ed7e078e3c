//! Lists of session routes: which of them are recent, and in which order they are given.
use vstd::prelude::*;
use vstd::string::StringExecFns;
use crate::models::{clamp, clamped};
use crate::routes::{account_views, AccountLabel, AccountLabelView};
use crate::text::{before, before_is_strict, before_is_transitive, comes_before, same, views};
use crate::time::{is_since, millis_before};

verus! {

/// The account that an alias of a session was last routed to, as it is stored. Points in time are
/// milliseconds since 1970.
#[derive(Debug)]
pub struct StoredRoute {
    pub key_hash: String,
    pub kind: String,
    pub account_id: u128,
    pub created_at: i64,
    pub last_used_at: i64,
}

/// A route as it is listed.
#[derive(Debug)]
pub struct SessionRoute {
    pub key_hash: String,
    pub kind: String,
    pub account_id: u128,
    pub account_label: String,
    pub created_at: i64,
    pub last_used_at: i64,
}

pub struct RouteView {
    pub hash: Seq<char>,
    pub kind: Seq<char>,
    pub account: u128,
    pub label: Seq<char>,
    pub created_at: i64,
    pub last_used_at: i64,
}

impl View for SessionRoute {
    type V = RouteView;

    open spec fn view(&self) -> RouteView {
        RouteView {
            hash: self.key_hash@,
            kind: self.kind@,
            account: self.account_id,
            label: self.account_label@,
            created_at: self.created_at,
            last_used_at: self.last_used_at,
        }
    }
}

pub open spec fn route_views(routes: Seq<SessionRoute>) -> Seq<RouteView> {
    Seq::new(routes.len(), |i: int| routes[i]@)
}

/// A hexadecimal digit in upper case.
pub open spec fn hex_char(d: int) -> char {
    if d < 10 {
        (('0' as int + d) as u8) as char
    } else {
        (('A' as int + d - 10) as u8) as char
    }
}

/// The last digits of a number in base sixteen.
pub open spec fn hex_text(n: nat, digits: nat) -> Seq<char>
    decreases digits,
{
    if digits == 0 {
        Seq::empty()
    } else {
        hex_text(n / 16, (digits - 1) as nat).push(hex_char((n % 16) as int))
    }
}

/// How a listed route names an account: by its label, else by the start of its identifier.
pub open spec fn name_of(a: AccountLabelView) -> Seq<char> {
    if a.label.len() == 0 {
        "account-"@ + hex_text((a.id / 0x1_0000_0000_0000_0000_0000_0000) as nat, 8)
    } else {
        a.label
    }
}

fn hex_digit(d: u128) -> (r: char)
    requires
        d < 16,
    ensures
        r == hex_char(d as int),
{
    if d < 10 {
        (48 + d as u8) as char
    } else {
        (55 + d as u8) as char
    }
}

fn hex_of(n: u128, digits: usize) -> (r: String)
    ensures
        r@ == hex_text(n as nat, digits as nat),
    decreases digits,
{
    if digits == 0 {
        let r = String::new();
        assert(r@ =~= Seq::empty());
        r
    } else {
        let mut r = hex_of(n / 16, digits - 1);
        r.push(hex_digit(n % 16));
        r
    }
}

fn account_name(a: &AccountLabel) -> (r: String)
    ensures
        r@ == name_of(a@),
{
    if a.label.as_str().is_empty() {
        let mut r = "account-".to_owned();
        r.append(&hex_of(a.id / 0x1_0000_0000_0000_0000_0000_0000, 8));
        r
    } else {
        a.label.clone()
    }
}

/// The name of the account with an identifier.
pub open spec fn named(accounts: Seq<AccountLabelView>, id: u128) -> Option<Seq<char>>
    decreases accounts.len(),
{
    if accounts.len() == 0 {
        None
    } else if accounts[0].id == id {
        Some(name_of(accounts[0]))
    } else {
        named(accounts.drop_first(), id)
    }
}

fn find_name(accounts: &Vec<AccountLabel>, id: u128) -> (r: Option<String>)
    ensures
        r.deep_view() == named(account_views(accounts@), id),
{
    let ghost all = account_views(accounts@);
    let mut i: usize = 0;
    assert(all.skip(0) =~= all);
    while i < accounts.len()
        invariant
            i <= accounts.len(),
            all == account_views(accounts@),
            named(all, id) == named(all.skip(i as int), id),
        decreases accounts.len() - i,
    {
        assert(all.skip(i as int).drop_first() =~= all.skip(i as int + 1));
        assert(all.skip(i as int)[0] == all[i as int]);
        if accounts[i].id == id {
            return Some(account_name(&accounts[i]));
        }
        i += 1;
    }
    None
}

/// The kinds of aliases that name a session.
pub open spec fn is_session_kind(kind: Seq<char>) -> bool {
    kind == "session_id"@ || kind == "thread_id"@ || kind == "conversation_id"@ || kind
        == "prompt_cache_key"@
}

/// Whether a route was used within the last seconds.
pub open spec fn is_recent(last_used_at: i64, ttl_seconds: i64, now: i64) -> bool {
    let ttl = if ttl_seconds < 1 {
        1int
    } else {
        ttl_seconds as int
    };
    millis_before(now as int, ttl) matches Some(start) && last_used_at >= start
}

/// Whether a route is asked for: by its hash, or as that of a session where no hashes are given.
pub open spec fn is_wanted(row: StoredRoute, hashes: Option<Seq<Seq<char>>>) -> bool {
    match hashes {
        Some(list) => list.contains(row.key_hash@),
        None => is_session_kind(row.kind@),
    }
}

/// A stored route as it is listed, where it is.
pub open spec fn listed(
    row: StoredRoute,
    accounts: Seq<AccountLabelView>,
    hashes: Option<Seq<Seq<char>>>,
    ttl_seconds: i64,
    now: i64,
) -> Option<RouteView> {
    match named(accounts, row.account_id) {
        Some(label) => if is_wanted(row, hashes) && is_recent(row.last_used_at, ttl_seconds, now) {
            Some(
                RouteView {
                    hash: row.key_hash@,
                    kind: row.kind@,
                    account: row.account_id,
                    label,
                    created_at: row.created_at,
                    last_used_at: row.last_used_at,
                },
            )
        } else {
            None
        },
        None => None,
    }
}

/// The order of listed routes: the one used last first, then by hash.
pub open spec fn comes_first(a: RouteView, b: RouteView) -> bool {
    a.last_used_at > b.last_used_at || (a.last_used_at == b.last_used_at && before(a.hash, b.hash))
}

/// The place of a route in a list: before the first that it comes before.
pub open spec fn place(list: Seq<RouteView>, v: RouteView) -> int
    decreases list.len(),
{
    if list.len() == 0 {
        0
    } else if comes_first(v, list[0]) {
        0
    } else {
        1 + place(list.drop_first(), v)
    }
}

/// The listed routes among the first `n`, in order.
pub open spec fn in_order(
    rows: Seq<StoredRoute>,
    accounts: Seq<AccountLabelView>,
    hashes: Option<Seq<Seq<char>>>,
    ttl_seconds: i64,
    now: i64,
    n: int,
) -> Seq<RouteView>
    decreases n,
{
    if n <= 0 {
        Seq::empty()
    } else {
        let head = in_order(rows, accounts, hashes, ttl_seconds, now, n - 1);
        match listed(rows[n - 1], accounts, hashes, ttl_seconds, now) {
            Some(v) => head.insert(place(head, v), v),
            None => head,
        }
    }
}

fn recent(last_used_at: i64, ttl_seconds: i64, now: i64) -> (r: bool)
    ensures
        r == is_recent(last_used_at, ttl_seconds, now),
{
    let ttl: i64 = if ttl_seconds < 1 {
        1
    } else {
        ttl_seconds
    };
    is_since(last_used_at, now, ttl)
}

fn holds_text(list: &Vec<String>, text: &str) -> (r: bool)
    ensures
        r == views(list@).contains(text@),
{
    let mut i: usize = 0;
    while i < list.len()
        invariant
            i <= list.len(),
            forall|k: int| 0 <= k < i ==> #[trigger] views(list@)[k] != text@,
        decreases list.len() - i,
    {
        if same(&list[i], text) {
            assert(views(list@)[i as int] == text@);
            return true;
        }
        i += 1;
    }
    false
}

pub open spec fn opt_views(hashes: Option<&Vec<String>>) -> Option<Seq<Seq<char>>> {
    match hashes {
        Some(list) => Some(views(list@)),
        None => None,
    }
}

fn wanted(row: &StoredRoute, hashes: Option<&Vec<String>>) -> (r: bool)
    ensures
        r == is_wanted(*row, opt_views(hashes)),
{
    match hashes {
        Some(list) => holds_text(list, &row.key_hash),
        None => same(&row.kind, "session_id") || same(&row.kind, "thread_id") || same(
            &row.kind,
            "conversation_id",
        ) || same(&row.kind, "prompt_cache_key"),
    }
}

fn insert_route(list: &mut Vec<SessionRoute>, route: SessionRoute)
    ensures
        route_views(final(list)@) == route_views(old(list)@).insert(
            place(route_views(old(list)@), route@),
            route@,
        ),
{
    let ghost all = route_views(list@);
    let ghost v = route@;
    let mut at: usize = 0;
    assert(all.skip(0) =~= all);
    while at < list.len() && !(route.last_used_at > list[at].last_used_at || (route.last_used_at
        == list[at].last_used_at && comes_before(&route.key_hash, &list[at].key_hash)))
        invariant
            at <= list.len(),
            all == route_views(list@),
            v == route@,
            place(all, v) == at + place(all.skip(at as int), v),
        decreases list.len() - at,
    {
        assert(all.skip(at as int).drop_first() =~= all.skip(at + 1));
        assert(all.skip(at as int)[0] == all[at as int]);
        at += 1;
    }
    assert(place(all.skip(at as int), v) == 0) by {
        if at < all.len() {
            assert(all.skip(at as int)[0] == all[at as int]);
        }
    }
    list.insert(at, route);
    assert(route_views(list@) =~= all.insert(at as int, v));
}

fn collect(
    rows: &Vec<StoredRoute>,
    accounts: &Vec<AccountLabel>,
    hashes: Option<&Vec<String>>,
    ttl_seconds: i64,
    now: i64,
) -> (r: Vec<SessionRoute>)
    ensures
        route_views(r@) == in_order(
            rows@,
            account_views(accounts@),
            opt_views(hashes),
            ttl_seconds,
            now,
            rows@.len() as int,
        ),
{
    let mut out: Vec<SessionRoute> = Vec::new();
    let mut i: usize = 0;
    assert(route_views(out@) =~= Seq::empty());
    while i < rows.len()
        invariant
            i <= rows.len(),
            route_views(out@) == in_order(
                rows@,
                account_views(accounts@),
                opt_views(hashes),
                ttl_seconds,
                now,
                i as int,
            ),
        decreases rows.len() - i,
    {
        let row = &rows[i];
        if let Some(account_label) = find_name(accounts, row.account_id) {
            if wanted(row, hashes) && recent(row.last_used_at, ttl_seconds, now) {
                insert_route(
                    &mut out,
                    SessionRoute {
                        key_hash: row.key_hash.clone(),
                        kind: row.kind.clone(),
                        account_id: row.account_id,
                        account_label,
                        created_at: row.created_at,
                        last_used_at: row.last_used_at,
                    },
                );
            }
        }
        i += 1;
    }
    out
}

/// The first routes of a list.
pub open spec fn at_most(list: Seq<RouteView>, limit: int) -> Seq<RouteView> {
    if list.len() <= limit {
        list
    } else {
        list.take(limit)
    }
}

/// The recent routes of sessions, at most as many as asked for and at most 500.
pub fn list_session_routes(
    rows: &Vec<StoredRoute>,
    accounts: &Vec<AccountLabel>,
    limit: i64,
    sticky_ttl_seconds: i64,
    now: i64,
) -> (r: Vec<SessionRoute>)
    ensures
        route_views(r@) == at_most(
            in_order(
                rows@,
                account_views(accounts@),
                None,
                sticky_ttl_seconds,
                now,
                rows@.len() as int,
            ),
            clamped(limit as int, 1, 500),
        ),
{
    let most = clamp(limit, 1, 500) as usize;
    let mut out = collect(rows, accounts, None, sticky_ttl_seconds, now);
    let ghost all = route_views(out@);
    if out.len() > most {
        out.truncate(most);
        assert(route_views(out@) =~= all.take(most as int));
    }
    out
}

/// The first 500 hashes of a list.
pub open spec fn first_hashes(hashes: Seq<Seq<char>>) -> Seq<Seq<char>> {
    if hashes.len() <= 500 {
        hashes
    } else {
        hashes.take(500)
    }
}

/// The recent routes with the given hashes, of which 500 count.
pub fn resolve_session_routes(
    rows: &Vec<StoredRoute>,
    accounts: &Vec<AccountLabel>,
    key_hashes: &Vec<String>,
    sticky_ttl_seconds: i64,
    now: i64,
) -> (r: Vec<SessionRoute>)
    ensures
        route_views(r@) == in_order(
            rows@,
            account_views(accounts@),
            Some(first_hashes(views(key_hashes@))),
            sticky_ttl_seconds,
            now,
            rows@.len() as int,
        ),
{
    let mut wanted: Vec<String> = Vec::new();
    let mut i: usize = 0;
    assert(views(wanted@) =~= views(key_hashes@).take(0));
    while i < key_hashes.len() && i < 500
        invariant
            i <= key_hashes.len(),
            i <= 500,
            views(wanted@) == views(key_hashes@).take(i as int),
        decreases key_hashes.len() - i,
    {
        let ghost known = wanted@;
        wanted.push(key_hashes[i].clone());
        proof {
            let all = views(key_hashes@);
            assert(views(wanted@) =~= views(known).push(key_hashes@[i as int]@));
            assert(all.take(i as int + 1) =~= all.take(i as int).push(all[i as int]));
        }
        i += 1;
    }
    assert(views(wanted@) =~= first_hashes(views(key_hashes@)));
    collect(rows, accounts, Some(&wanted), sticky_ttl_seconds, now)
}

proof fn order_is_transitive(a: RouteView, b: RouteView, c: RouteView)
    requires
        comes_first(a, b),
        comes_first(b, c),
    ensures
        comes_first(a, c),
{
    if a.last_used_at == b.last_used_at && b.last_used_at == c.last_used_at {
        before_is_transitive(a.hash, b.hash, c.hash);
    }
}

proof fn place_divides(list: Seq<RouteView>, v: RouteView)
    ensures
        0 <= place(list, v) <= list.len(),
        forall|i: int| 0 <= i < place(list, v) ==> !comes_first(v, #[trigger] list[i]),
        place(list, v) < list.len() ==> comes_first(v, list[place(list, v)]),
    decreases list.len(),
{
    if list.len() > 0 && !comes_first(v, list[0]) {
        let rest = list.drop_first();
        place_divides(rest, v);
        assert forall|i: int| 0 <= i < place(list, v) implies !comes_first(v, #[trigger] list[i]) by {
            if i > 0 {
                assert(rest[i - 1] == list[i]);
            }
        }
    }
}

/// Routes are listed in order: no route comes before one that is listed ahead of it.
pub proof fn routes_are_in_order(
    rows: Seq<StoredRoute>,
    accounts: Seq<AccountLabelView>,
    hashes: Option<Seq<Seq<char>>>,
    ttl_seconds: i64,
    now: i64,
    n: int,
)
    ensures
        forall|i: int, j: int|
            0 <= i < j < in_order(rows, accounts, hashes, ttl_seconds, now, n).len()
                ==> !comes_first(
                #[trigger] in_order(rows, accounts, hashes, ttl_seconds, now, n)[j],
                #[trigger] in_order(rows, accounts, hashes, ttl_seconds, now, n)[i],
            ),
    decreases n,
{
    if n > 0 {
        let head = in_order(rows, accounts, hashes, ttl_seconds, now, n - 1);
        routes_are_in_order(rows, accounts, hashes, ttl_seconds, now, n - 1);
        if let Some(v) = listed(rows[n - 1], accounts, hashes, ttl_seconds, now) {
            let p = place(head, v);
            let all = in_order(rows, accounts, hashes, ttl_seconds, now, n);
            place_divides(head, v);
            assert forall|i: int, j: int| 0 <= i < j < all.len() implies !comes_first(
                #[trigger] all[j],
                #[trigger] all[i],
            ) by {
                if i == p {
                    assert(all[j] == head[j - 1]);
                    if comes_first(head[j - 1], v) {
                        order_is_transitive(head[j - 1], v, head[p]);
                        if p < j - 1 {
                            assert(!comes_first(head[j - 1], head[p]));
                        } else {
                            before_is_strict(head[p].hash, head[p].hash);
                        }
                    }
                } else if j == p {
                    assert(all[i] == head[i]);
                } else {
                    let a = if i < p { i } else { i - 1 };
                    let b = if j < p { j } else { j - 1 };
                    assert(all[i] == head[a] && all[j] == head[b]);
                }
            }
        }
    }
}

/// Every listed route is one that was stored, asked for and used recently.
pub proof fn listed_routes_are_wanted(
    rows: Seq<StoredRoute>,
    accounts: Seq<AccountLabelView>,
    hashes: Option<Seq<Seq<char>>>,
    ttl_seconds: i64,
    now: i64,
    n: int,
    i: int,
)
    requires
        0 <= i < in_order(rows, accounts, hashes, ttl_seconds, now, n).len(),
    ensures
        exists|k: int|
            0 <= k < n && listed(#[trigger] rows[k], accounts, hashes, ttl_seconds, now) == Some(
                in_order(rows, accounts, hashes, ttl_seconds, now, n)[i],
            ),
    decreases n,
{
    if n > 0 {
        let head = in_order(rows, accounts, hashes, ttl_seconds, now, n - 1);
        match listed(rows[n - 1], accounts, hashes, ttl_seconds, now) {
            Some(v) => {
                let p = place(head, v);
                place_divides(head, v);
                if i == p {
                    assert(listed(rows[n - 1], accounts, hashes, ttl_seconds, now) == Some(v));
                } else {
                    let k = if i < p { i } else { i - 1 };
                    listed_routes_are_wanted(rows, accounts, hashes, ttl_seconds, now, n - 1, k);
                }
            },
            None => {
                listed_routes_are_wanted(rows, accounts, hashes, ttl_seconds, now, n - 1, i);
            },
        }
    }
}

/// A route is listed as it is stored, under the name of its account.
pub proof fn routes_are_listed_as_stored(
    row: StoredRoute,
    accounts: Seq<AccountLabelView>,
    hashes: Option<Seq<Seq<char>>>,
    ttl_seconds: i64,
    now: i64,
)
    ensures
        listed(row, accounts, hashes, ttl_seconds, now) matches Some(v) ==> v.hash == row.key_hash@
            && v.kind == row.kind@ && v.account == row.account_id && v.created_at == row.created_at
            && v.last_used_at == row.last_used_at && named(accounts, row.account_id) == Some(
            v.label,
        ),
        listed(row, accounts, hashes, ttl_seconds, now) is Some <==> named(
            accounts,
            row.account_id,
        ) is Some && is_wanted(row, hashes) && is_recent(row.last_used_at, ttl_seconds, now),
{
}

/// Without hashes, the routes of sessions, threads, conversations and caches are wanted; with them,
/// those that they name.
pub proof fn wanted_routes(row: StoredRoute, hashes: Seq<Seq<char>>)
    ensures
        is_wanted(row, None) <==> row.kind@ == "session_id"@ || row.kind@ == "thread_id"@
            || row.kind@ == "conversation_id"@ || row.kind@ == "prompt_cache_key"@,
        is_wanted(row, Some(hashes)) <==> hashes.contains(row.key_hash@),
{
}

/// A route is recent as long as it is kept: it was used no longer ago than that.
pub proof fn recent_routes(last_used_at: i64, ttl_seconds: i64, now: i64)
    requires
        1 <= ttl_seconds,
        0 <= now - ttl_seconds * 1000,
        now <= 253402300799999,
    ensures
        is_recent(last_used_at, ttl_seconds, now) <==> now - last_used_at <= ttl_seconds * 1000,
{
}

/// The name of an account is its label; one without a label is named by the first eight digits of its
/// identifier.
pub proof fn accounts_have_names(a: AccountLabelView)
    ensures
        a.label.len() > 0 ==> name_of(a) == a.label,
        a.label.len() == 0 ==> name_of(a) == "account-"@ + hex_text(
            (a.id / 0x1_0000_0000_0000_0000_0000_0000) as nat,
            8,
        ),
{
}

/// No more routes are listed than were asked for, and those that are come first.
pub proof fn lists_are_cut(list: Seq<RouteView>, limit: int, i: int)
    requires
        0 <= limit,
    ensures
        at_most(list, limit).len() <= limit,
        list.len() <= limit ==> at_most(list, limit) == list,
        list.len() > limit ==> at_most(list, limit).len() == limit,
        0 <= i < at_most(list, limit).len() ==> at_most(list, limit)[i] == list[i],
{
}

/// Of two routes the one that was used later comes first.
pub proof fn later_routes_come_first(a: RouteView, b: RouteView)
    ensures
        a.last_used_at > b.last_used_at ==> comes_first(a, b) && !comes_first(b, a),
        a.last_used_at == b.last_used_at ==> (comes_first(a, b) <==> before(a.hash, b.hash)),
{
}

/// Every route that is wanted, recent and of a known account is listed, and no more routes are listed
/// than are stored.
pub proof fn wanted_routes_are_listed(
    rows: Seq<StoredRoute>,
    accounts: Seq<AccountLabelView>,
    hashes: Option<Seq<Seq<char>>>,
    ttl_seconds: i64,
    now: i64,
    n: int,
    k: int,
)
    requires
        0 <= k < n <= rows.len(),
        named(accounts, rows[k].account_id) is Some,
        is_wanted(rows[k], hashes),
        is_recent(rows[k].last_used_at, ttl_seconds, now),
    ensures
        exists|i: int|
            0 <= i < in_order(rows, accounts, hashes, ttl_seconds, now, n).len()
                && (#[trigger] in_order(rows, accounts, hashes, ttl_seconds, now, n)[i]).hash
                == rows[k].key_hash@ && in_order(rows, accounts, hashes, ttl_seconds, now, n)[i].account
                == rows[k].account_id,
        in_order(rows, accounts, hashes, ttl_seconds, now, n).len() <= n,
    decreases n,
{
    let head = in_order(rows, accounts, hashes, ttl_seconds, now, n - 1);
    let all = in_order(rows, accounts, hashes, ttl_seconds, now, n);
    lists_are_no_longer(rows, accounts, hashes, ttl_seconds, now, n);
    if k == n - 1 {
        let v = listed(rows[k], accounts, hashes, ttl_seconds, now)->0;
        place_divides(head, v);
        assert(all[place(head, v)] == v);
    } else {
        wanted_routes_are_listed(rows, accounts, hashes, ttl_seconds, now, n - 1, k);
        let i = choose|i: int|
            0 <= i < head.len() && (#[trigger] head[i]).hash == rows[k].key_hash@ && head[i].account
                == rows[k].account_id;
        match listed(rows[n - 1], accounts, hashes, ttl_seconds, now) {
            Some(v) => {
                place_divides(head, v);
                if i < place(head, v) {
                    assert(all[i] == head[i]);
                } else {
                    assert(all[i + 1] == head[i]);
                }
            },
            None => {},
        }
    }
}

proof fn lists_are_no_longer(
    rows: Seq<StoredRoute>,
    accounts: Seq<AccountLabelView>,
    hashes: Option<Seq<Seq<char>>>,
    ttl_seconds: i64,
    now: i64,
    n: int,
)
    requires
        0 <= n <= rows.len(),
    ensures
        in_order(rows, accounts, hashes, ttl_seconds, now, n).len() <= n,
    decreases n,
{
    if n > 0 {
        lists_are_no_longer(rows, accounts, hashes, ttl_seconds, now, n - 1);
        let head = in_order(rows, accounts, hashes, ttl_seconds, now, n - 1);
        if let Some(v) = listed(rows[n - 1], accounts, hashes, ttl_seconds, now) {
            place_divides(head, v);
        }
    }
}

/// An account is named by its identifier: the first that has it counts, and an unknown one has no
/// name.
pub proof fn accounts_are_named_by_identifier(accounts: Seq<AccountLabelView>, id: u128, i: int)
    ensures
        0 <= i < accounts.len() && accounts[i].id == id && (forall|j: int|
            0 <= j < i ==> (#[trigger] accounts[j]).id != id) ==> named(accounts, id) == Some(
            name_of(accounts[i]),
        ),
        (forall|j: int| 0 <= j < accounts.len() ==> (#[trigger] accounts[j]).id != id) ==> named(
            accounts,
            id,
        ) is None,
    decreases accounts.len(),
{
    if accounts.len() > 0 {
        let rest = accounts.drop_first();
        accounts_are_named_by_identifier(rest, id, i - 1);
        assert forall|j: int| 0 <= j < rest.len() implies #[trigger] rest[j] == accounts[j + 1] by {
        }
        if forall|j: int| 0 <= j < accounts.len() ==> (#[trigger] accounts[j]).id != id {
            assert(accounts[0].id != id);
            assert forall|j: int| 0 <= j < rest.len() implies (#[trigger] rest[j]).id != id by {
                assert(accounts[j + 1].id != id);
            }
        }
        if 0 < i < accounts.len() && accounts[i].id == id && (forall|j: int|
            0 <= j < i ==> (#[trigger] accounts[j]).id != id) {
            assert(accounts[0].id != id);
            assert(rest[i - 1] == accounts[i]);
            assert forall|j: int| 0 <= j < i - 1 implies (#[trigger] rest[j]).id != id by {
                assert(accounts[j + 1].id != id);
            }
        }
    }
}

/// Digits are those of hexadecimal numbers in upper case.
pub proof fn digits_are_hexadecimal(d: int)
    requires
        0 <= d < 16,
    ensures
        d < 10 ==> hex_char(d) as int == 0x30 + d,
        d >= 10 ==> hex_char(d) as int == 0x41 + d - 10,
{
}

/// A number is written with as many digits as asked, the least one last.
pub proof fn numbers_are_written_in_digits(n: nat, digits: nat)
    ensures
        hex_text(n, digits).len() == digits,
        digits > 0 ==> hex_text(n, digits).last() == hex_char((n % 16) as int),
        digits > 1 ==> hex_text(n, digits)[digits - 2] == hex_char(((n / 16) % 16) as int),
    decreases digits,
{
    if digits > 0 {
        numbers_are_written_in_digits(n / 16, (digits - 1) as nat);
    }
}

/// No more than the first five hundred hashes are looked up.
pub proof fn hashes_are_cut(hashes: Seq<Seq<char>>, i: int)
    ensures
        first_hashes(hashes).len() <= 500,
        hashes.len() <= 500 ==> first_hashes(hashes) == hashes,
        0 <= i < 500 && i < hashes.len() ==> i < first_hashes(hashes).len() && first_hashes(hashes)[i]
            == hashes[i],
{
}

} // verus!
