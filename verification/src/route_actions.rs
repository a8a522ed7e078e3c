//! Route commands: moving all aliases of a session to one account.
use vstd::prelude::*;
use crate::error::{AppError, AppErrorKind, bad_request, internal, not_found};
use crate::keys::{
    RouteKeyView, SessionRouteActionKind, SessionRouteActionStatus, SessionRouteKey, checked_keys,
    copy_key, distinct_hashes, find_hash, has_hash, hash_at, is_affinity_hash, key_views,
    kind_is_unique, kind_of, too_many_keys, valid_affinity_hash, valid_keys,
    validate_session_route_keys,
};
use crate::routes::{
    AccountLabel, AccountLabelView, AffinityRow, AffinityView, KeyRow, KeyView, RootRow, RootView,
    RouteTables, TablesView, account_display_label, account_views, label_of,
    resolve_session_route_target, resolved_target,
};
use crate::text::{ascending, insert_sorted, same, take_chars, views};

verus! {

/// A command for one session: its root hash, its known aliases, and what to do with them.
#[derive(Debug)]
pub struct SessionRouteActionRequest {
    pub root_key_hash: String,
    pub keys: Vec<SessionRouteKey>,
    pub action: SessionRouteActionKind,
    pub target: Option<String>,
    pub dry_run: bool,
}

/// What came of a command.
#[derive(Debug)]
pub struct SessionRouteActionResponse {
    pub root_key_hash: String,
    pub session_fingerprint: String,
    pub action: SessionRouteActionKind,
    pub status: SessionRouteActionStatus,
    pub requested_account: Option<String>,
    pub effective_account: Option<String>,
    pub previous_accounts: Vec<String>,
    pub route_generation: i64,
    pub linked_route_count: usize,
    pub changed_route_count: usize,
    pub merged_root_count: usize,
    pub dry_run: bool,
}

/// What a command finds: the stored routes, the accounts, which of them can be used now, which one
/// the balancer would pick, and which accounts serve live connections of the session.
pub struct Action {
    pub tables: TablesView,
    pub accounts: Seq<AccountLabelView>,
    pub eligible: Seq<u128>,
    pub smart: Option<u128>,
    pub live: Seq<u128>,
    pub root: Seq<char>,
    pub keys: Seq<RouteKeyView>,
    pub target: Option<u128>,
}

/// Whether the `i`th key is stored as an alias of the session `r`.
pub open spec fn prior_root(t: TablesView, keys: Seq<RouteKeyView>, r: Seq<char>, i: int) -> bool {
    0 <= i < keys.len() && t.keys.contains_key(keys[i].hash) && t.keys[keys[i].hash].root == r
}

/// The sessions that a command merges into `root`: itself, and those of its keys.
pub open spec fn root_linked(
    t: TablesView,
    root: Seq<char>,
    keys: Seq<RouteKeyView>,
    r: Seq<char>,
) -> bool {
    r == root || exists|i: int| prior_root(t, keys, r, i)
}

/// The aliases that a command covers: its keys, and all aliases of the merged sessions.
pub open spec fn key_linked(
    t: TablesView,
    root: Seq<char>,
    keys: Seq<RouteKeyView>,
    h: Seq<char>,
) -> bool {
    has_hash(keys, h) || (t.keys.contains_key(h) && root_linked(t, root, keys, t.keys[h].root))
}

/// The kind of a covered alias: that of the command's key, else the stored one.
pub open spec fn linked_kind(t: TablesView, keys: Seq<RouteKeyView>, h: Seq<char>) -> Seq<char> {
    if has_hash(keys, h) {
        kind_of(keys, h)
    } else {
        t.keys[h].kind
    }
}

impl Action {
    pub open spec fn covers(self, h: Seq<char>) -> bool {
        key_linked(self.tables, self.root, self.keys, h)
    }

    pub open spec fn merges(self, r: Seq<char>) -> bool {
        root_linked(self.tables, self.root, self.keys, r)
    }

    pub open spec fn kind(self, h: Seq<char>) -> Seq<char> {
        linked_kind(self.tables, self.keys, h)
    }

    /// A covered alias that is bound to an existing account.
    pub open spec fn routed(self, h: Seq<char>) -> bool {
        &&& self.covers(h)
        &&& self.tables.affinity.contains_key(h)
        &&& label_of(self.accounts, self.tables.affinity[h].account) is Some
    }

    /// The account to move to: the requested one where it can be used, else the balancer's pick.
    pub open spec fn effective(self) -> Option<u128> {
        if self.target is Some && self.eligible.contains(self.target->0) {
            self.target
        } else {
            self.smart
        }
    }

    /// An account was requested, but cannot be used now.
    pub open spec fn falls_back(self) -> bool {
        self.target is Some && !self.eligible.contains(self.target->0)
    }

    pub open spec fn root_has(self, r: Seq<char>, g: int) -> bool {
        self.merges(r) && self.tables.roots.contains_key(r) && self.tables.roots[r].generation == g
    }

    pub open spec fn key_has(self, h: Seq<char>, g: int) -> bool {
        self.routed(h) && self.tables.affinity[h].generation == g
    }

    /// The newest generation of the merged sessions and covered bindings, zero where there is none.
    pub open spec fn is_current(self, g: int) -> bool {
        &&& g >= 0
        &&& g == 0 || (exists|r: Seq<char>| self.root_has(r, g)) || (exists|h: Seq<char>|
            self.key_has(h, g))
        &&& forall|r: Seq<char>, x: int| #[trigger] self.root_has(r, x) ==> x <= g
        &&& forall|h: Seq<char>, x: int| #[trigger] self.key_has(h, x) ==> x <= g
    }

    pub open spec fn current(self) -> int {
        choose|g: int| self.is_current(g)
    }

    /// A covered alias that is not bound to the effective account under its kind.
    pub open spec fn misplaced(self, h: Seq<char>) -> bool {
        self.covers(h) && !(self.routed(h) && Some(self.tables.affinity[h].account)
            == self.effective() && self.tables.affinity[h].kind == self.kind(h))
    }

    /// A covered alias that is stored under the command's session with its kind.
    pub open spec fn mapped(self, h: Seq<char>) -> bool {
        self.tables.keys.contains_key(h) && self.tables.keys[h].root == self.root
            && self.tables.keys[h].kind == self.kind(h)
    }

    pub open spec fn unmapped(self, h: Seq<char>) -> bool {
        self.covers(h) && !self.mapped(h)
    }

    /// The stored aliases do not yet say what the command says of them.
    pub open spec fn remaps(self) -> bool {
        !self.tables.roots.contains_key(self.root) || exists|h: Seq<char>| self.unmapped(h)
    }

    pub open spec fn outdated(self, h: Seq<char>) -> bool {
        self.routed(h) && self.tables.affinity[h].generation != self.current()
    }

    pub open spec fn live_elsewhere(self, i: int) -> bool {
        0 <= i < self.live.len() && Some(self.live[i]) != self.effective()
    }

    /// There is an account to move to, and something of the session is not there yet.
    pub open spec fn moves(self) -> bool {
        self.effective() is Some && ((exists|h: Seq<char>| self.misplaced(h)) || (exists|i: int|
            self.live_elsewhere(i)) || self.remaps() || (exists|h: Seq<char>| self.outdated(h)))
    }

    pub open spec fn generation(self) -> int {
        if self.moves() {
            self.current() + 1
        } else {
            self.current()
        }
    }

    pub open spec fn status(self) -> SessionRouteActionStatus {
        if self.effective() is None {
            SessionRouteActionStatus::Pending
        } else if self.falls_back() {
            SessionRouteActionStatus::Fallback
        } else if self.moves() {
            SessionRouteActionStatus::Applied
        } else {
            SessionRouteActionStatus::NoOp
        }
    }

    /// Nothing is known of the session: no stored root or alias, no binding, no live connection.
    pub open spec fn unknown(self) -> bool {
        &&& !self.tables.roots.contains_key(self.root)
        &&& forall|i: int|
            0 <= i < self.keys.len() ==> !self.tables.keys.contains_key(
                (#[trigger] self.keys[i]).hash,
            )
        &&& forall|h: Seq<char>| !#[trigger] self.routed(h)
        &&& self.live.len() == 0
    }

    pub open spec fn bound_to(self, h: Seq<char>, l: Seq<char>) -> bool {
        self.routed(h) && label_of(self.accounts, self.tables.affinity[h].account) == Some(l)
    }

    pub open spec fn live_on(self, i: int, l: Seq<char>) -> bool {
        0 <= i < self.live.len() && label_of(self.accounts, self.live[i]) == Some(l)
    }

    /// The labels of the accounts that the session is bound to or live on.
    pub open spec fn was_on(self, l: Seq<char>) -> bool {
        (exists|h: Seq<char>| self.bound_to(h, l)) || (exists|i: int| self.live_on(i, l))
    }

    pub open spec fn covered(self) -> Set<Seq<char>> {
        Set::new(|h: Seq<char>| self.covers(h))
    }

    pub open spec fn changed(self) -> Set<Seq<char>> {
        Set::new(|h: Seq<char>| self.effective() is Some && self.misplaced(h))
    }

    pub open spec fn merged(self) -> Set<Seq<char>> {
        Set::new(|r: Seq<char>| self.merges(r) && r != self.root)
    }

    /// The stored routes after the command.
    pub open spec fn after(self, action: SessionRouteActionKind, now: int) -> TablesView {
        TablesView {
            roots: Map::new(
                |r: Seq<char>|
                    r == self.root || (self.tables.roots.contains_key(r) && !self.merges(r)),
                |r: Seq<char>|
                    if r == self.root {
                        RootView {
                            generation: self.generation(),
                            last_action: Some(action.text()),
                            requested: self.target,
                            effective: self.effective(),
                            status: Some(self.status().text()),
                            updated_at: now,
                        }
                    } else {
                        self.tables.roots[r]
                    },
            ),
            keys: Map::new(
                |h: Seq<char>| self.tables.keys.contains_key(h) || self.covers(h),
                |h: Seq<char>|
                    if self.covers(h) {
                        KeyView { root: self.root, kind: self.kind(h), updated_at: now }
                    } else {
                        self.tables.keys[h]
                    },
            ),
            affinity: if self.moves() {
                Map::new(
                    |h: Seq<char>| self.tables.affinity.contains_key(h) || self.covers(h),
                    |h: Seq<char>|
                        if self.covers(h) {
                            AffinityView {
                                kind: self.kind(h),
                                account: self.effective()->0,
                                generation: self.generation(),
                                last_used_at: now,
                            }
                        } else {
                            self.tables.affinity[h]
                        },
                )
            } else {
                self.tables.affinity
            },
        }
    }
}

/// The account that a request asks for, or why the request is refused as it stands.
pub open spec fn request_target(
    accounts: Seq<AccountLabelView>,
    root: Seq<char>,
    keys: Seq<RouteKeyView>,
    action: SessionRouteActionKind,
    target: Option<Seq<char>>,
) -> Result<Option<u128>, (AppErrorKind, Seq<char>)> {
    if !is_affinity_hash(root) {
        Err(
            (
                AppErrorKind::BadRequest,
                "session root hashes must be 64 lowercase hexadecimal characters"@,
            ),
        )
    } else if keys.len() > 500 {
        Err((AppErrorKind::BadRequest, too_many_keys()))
    } else if checked_keys(keys) is Err {
        Err((AppErrorKind::BadRequest, checked_keys(keys)->Err_0))
    } else if keys.len() == 0 {
        Err((AppErrorKind::BadRequest, "at least one session route key is required"@))
    } else if !has_hash(checked_keys(keys)->Ok_0, root) {
        Err((AppErrorKind::BadRequest, "the session root hash must also be present in keys"@))
    } else if action == SessionRouteActionKind::Rebalance {
        if target is Some {
            Err((AppErrorKind::BadRequest, "rebalance actions do not accept a target"@))
        } else {
            Ok(None)
        }
    } else if target is None {
        Err((AppErrorKind::BadRequest, "reroute actions require a target"@))
    } else {
        match resolved_target(accounts, target->0) {
            Ok(id) => Ok(Some(id)),
            Err(e) => Err(e),
        }
    }
}

impl SessionRouteActionRequest {
    pub open spec fn checked(&self, accounts: Seq<AccountLabelView>) -> Result<
        Option<u128>,
        (AppErrorKind, Seq<char>),
    > {
        request_target(
            accounts,
            self.root_key_hash@,
            key_views(self.keys@),
            self.action,
            self.target.deep_view(),
        )
    }
}

/// The keys and the target of a request, where it is not refused as it stands.
fn check_request(accounts: &Vec<AccountLabel>, request: &SessionRouteActionRequest) -> (r: Result<
    (Vec<SessionRouteKey>, Option<u128>),
    AppError,
>)
    ensures
        match r {
            Ok((keys, target)) => {
                &&& request.checked(account_views(accounts@)) == Ok::<
                    Option<u128>,
                    (AppErrorKind, Seq<char>),
                >(target)
                &&& checked_keys(key_views(request.keys@)) == Ok::<Seq<RouteKeyView>, Seq<char>>(
                    key_views(keys@),
                )
                &&& valid_keys(key_views(keys@))
            },
            Err(e) => request.checked(account_views(accounts@)) == Err::<
                Option<u128>,
                (AppErrorKind, Seq<char>),
            >(e@),
        },
{
    if !valid_affinity_hash(&request.root_key_hash) {
        return Err(
            bad_request("session root hashes must be 64 lowercase hexadecimal characters"),
        );
    }
    let keys = match validate_session_route_keys(&request.keys) {
        Ok(keys) => keys,
        Err(error) => return Err(error),
    };
    if keys.len() == 0 {
        return Err(bad_request("at least one session route key is required"));
    }
    if find_hash(&keys, &request.root_key_hash).is_none() {
        return Err(bad_request("the session root hash must also be present in keys"));
    }
    let target = match request.action {
        SessionRouteActionKind::Rebalance => {
            if request.target.is_some() {
                return Err(bad_request("rebalance actions do not accept a target"));
            }
            None
        },
        SessionRouteActionKind::Reroute => match &request.target {
            None => return Err(bad_request("reroute actions require a target")),
            Some(text) => match resolve_session_route_target(accounts, text) {
                Ok(found) => Some(found.account_id),
                Err(error) => return Err(error),
            },
        },
    };
    Ok((keys, target))
}

/// Whether a list of texts holds a text.
fn holds(list: &Vec<String>, item: &str) -> (r: bool)
    ensures
        r == views(list@).contains(item@),
{
    let mut i: usize = 0;
    while i < list.len()
        invariant
            i <= list.len(),
            forall|j: int| 0 <= j < i ==> #[trigger] views(list@)[j] != item@,
        decreases list.len() - i,
    {
        if same(&list[i], item) {
            assert(views(list@)[i as int] == item@);
            return true;
        }
        assert(views(list@)[i as int] != item@);
        i += 1;
    }
    false
}

fn holds_id(list: &Vec<u128>, id: u128) -> (r: bool)
    ensures
        r == list@.contains(id),
{
    let mut i: usize = 0;
    while i < list.len()
        invariant
            i <= list.len(),
            forall|j: int| 0 <= j < i ==> list@[j] != id,
        decreases list.len() - i,
    {
        if list[i] == id {
            assert(list@[i as int] == id);
            return true;
        }
        i += 1;
    }
    false
}

/// The sessions that a command merges, the command's own first.
fn linked_roots(tables: &RouteTables, root: &str, keys: &Vec<SessionRouteKey>) -> (r: Vec<String>)
    requires
        tables.wf(),
    ensures
        views(r@).no_duplicates(),
        forall|x: Seq<char>| #[trigger]
            views(r@).contains(x) <==> root_linked(tables@, root@, key_views(keys@), x),
        r.len() >= 1,
        views(r@)[0] == root@,
        r.len() <= keys.len() + 1,
        forall|x: Seq<char>| x != root@ ==> (#[trigger] views(r@).contains(x) <==> exists|i: int|
            prior_root(tables@, key_views(keys@), x, i)),
{
    let ghost all = key_views(keys@);
    let mut out: Vec<String> = Vec::new();
    out.push(root.to_owned());
    assert(views(out@) =~= seq![root@]);
    assert(views(out@)[0] == root@);
    let mut i: usize = 0;
    while i < keys.len()
        invariant
            i <= keys.len(),
            tables.wf(),
            all == key_views(keys@),
            1 <= out.len() <= i + 1,
            views(out@)[0] == root@,
            views(out@).no_duplicates(),
            forall|x: Seq<char>| #[trigger]
                views(out@).contains(x) <==> x == root@ || exists|j: int|
                    0 <= j < i && prior_root(tables@, all, x, j),
        decreases keys.len() - i,
    {
        let ghost before = views(out@);
        let ghost hash = all[i as int].hash;
        if let Some(row) = tables.keys.get(&keys[i].key_hash) {
            assert(prior_root(tables@, all, row.root_key_hash@, i as int));
            if !holds(&out, &row.root_key_hash) {
                out.push(row.root_key_hash.clone());
                proof {
                    let now = views(out@);
                    assert(now =~= before.push(row.root_key_hash@));
                    assert forall|x: Seq<char>| #[trigger] now.contains(x) <==> before.contains(x)
                        || x == row.root_key_hash@ by {
                        if before.contains(x) {
                            let k = before.index_of(x);
                            assert(now[k] == x);
                        }
                        if x == row.root_key_hash@ {
                            assert(now[before.len() as int] == x);
                        }
                    }
                }
            }
            proof {
                assert forall|x: Seq<char>| #[trigger]
                    views(out@).contains(x) <==> x == root@ || exists|j: int|
                        0 <= j < i + 1 && prior_root(tables@, all, x, j) by {
                    if exists|j: int| 0 <= j < i + 1 && prior_root(tables@, all, x, j) {
                        let j = choose|j: int| 0 <= j < i + 1 && prior_root(tables@, all, x, j);
                        if j < i {
                            assert(before.contains(x));
                        }
                    }
                }
            }
        } else {
            proof {
                assert forall|x: Seq<char>| !prior_root(tables@, all, x, i as int) by {}
            }
        }
        i += 1;
    }
    proof {
        assert forall|x: Seq<char>| #[trigger]
            views(out@).contains(x) <==> root_linked(tables@, root@, all, x) by {
            if exists|j: int| prior_root(tables@, all, x, j) {
                let j = choose|j: int| prior_root(tables@, all, x, j);
                assert(0 <= j < all.len() && prior_root(tables@, all, x, j));
            }
        }
    }
    out
}

/// The aliases that a command covers, each once, with its kind.
fn linked_keys(
    tables: &RouteTables,
    root: &str,
    roots: &Vec<String>,
    keys: &Vec<SessionRouteKey>,
) -> (r: Vec<SessionRouteKey>)
    requires
        tables.wf(),
        distinct_hashes(key_views(keys@)),
        forall|x: Seq<char>| #[trigger]
            views(roots@).contains(x) <==> root_linked(tables@, root@, key_views(keys@), x),
    ensures
        distinct_hashes(key_views(r@)),
        forall|h: Seq<char>| #[trigger]
            has_hash(key_views(r@), h) <==> key_linked(tables@, root@, key_views(keys@), h),
        forall|i: int|
            0 <= i < r.len() ==> (#[trigger] r@[i]).kind@ == linked_kind(
                tables@,
                key_views(keys@),
                r@[i].key_hash@,
            ),
{
    let ghost given = key_views(keys@);
    let mut out: Vec<SessionRouteKey> = Vec::new();
    let mut i: usize = 0;
    while i < keys.len()
        invariant
            i <= keys.len(),
            given == key_views(keys@),
            distinct_hashes(given),
            key_views(out@) == given.take(i as int),
        decreases keys.len() - i,
    {
        let ghost before = key_views(out@);
        out.push(copy_key(&keys[i]));
        assert(key_views(out@) =~= before.push(given[i as int]));
        assert(given.take(i as int + 1) =~= given.take(i as int).push(given[i as int]));
        i += 1;
    }
    assert(given.take(given.len() as int) =~= given);
    proof {
        assert forall|k: int| 0 <= k < out.len() implies (#[trigger] out@[k]).kind@ == linked_kind(
            tables@,
            given,
            out@[k].key_hash@,
        ) by {
            assert(key_views(out@)[k] == given[k]);
            assert(hash_at(given, out@[k].key_hash@, k));
            kind_is_unique(given, out@[k].key_hash@, k);
        }
    }
    let mut n: usize = 0;
    while n < tables.keys.len()
        invariant
            n <= tables.keys.keys().len(),
            tables.wf(),
            given == key_views(keys@),
            forall|x: Seq<char>| #[trigger]
                views(roots@).contains(x) <==> root_linked(tables@, root@, given, x),
            distinct_hashes(key_views(out@)),
            forall|h: Seq<char>| #[trigger]
                has_hash(key_views(out@), h) <==> has_hash(given, h) || (tables.keys.keys().take(
                    n as int,
                ).contains(h) && root_linked(tables@, root@, given, tables@.keys[h].root)),
            forall|k: int|
                0 <= k < out.len() ==> (#[trigger] out@[k]).kind@ == linked_kind(
                    tables@,
                    given,
                    out@[k].key_hash@,
                ),
        decreases tables.keys.keys().len() - n,
    {
        let ghost before = key_views(out@);
        let hash = tables.keys.key(n);
        let row = tables.keys.value(n);
        let ghost rows = tables.keys.keys();
        proof {
            assert(rows.take(n as int + 1) =~= rows.take(n as int).push(hash@));
            assert forall|h: Seq<char>|
                rows.take(n as int + 1).contains(h) <==> rows.take(n as int).contains(h) || h
                    == hash@ by {
                if rows.take(n as int).contains(h) {
                    let k = rows.take(n as int).index_of(h);
                    assert(rows.take(n as int + 1)[k] == h);
                }
                if h == hash@ {
                    assert(rows.take(n as int + 1)[n as int] == h);
                }
            }
            if rows.take(n as int).contains(hash@) {
                let k = rows.take(n as int).index_of(hash@);
                assert(rows[k] == rows[n as int]);
            }
        }
        if holds(roots, &row.root_key_hash) && find_hash(keys, hash).is_none() {
            out.push(SessionRouteKey { key_hash: hash.clone(), kind: row.kind.clone() });
            proof {
                let now = key_views(out@);
                assert(now =~= before.push(RouteKeyView { hash: hash@, kind: row.kind@ }));
                assert(!has_hash(before, hash@));
                assert forall|a: int, b: int| 0 <= a < b < now.len() implies (
                #[trigger] now[a]).hash != (#[trigger] now[b]).hash by {
                    if b == before.len() {
                        assert(!hash_at(before, hash@, a));
                    } else {
                        assert(before[a].hash != before[b].hash);
                    }
                }
                assert forall|h: Seq<char>| #[trigger] has_hash(now, h) <==> has_hash(before, h)
                    || h == hash@ by {
                    if has_hash(before, h) {
                        let k = choose|k: int| hash_at(before, h, k);
                        assert(hash_at(now, h, k));
                    }
                    if h == hash@ {
                        assert(hash_at(now, h, before.len() as int));
                    }
                    if has_hash(now, h) {
                        let k = choose|k: int| hash_at(now, h, k);
                        if k < before.len() {
                            assert(hash_at(before, h, k));
                        }
                    }
                }
            }
        }
        n += 1;
    }
    proof {
        assert(tables.keys.keys().take(tables.keys.keys().len() as int) =~= tables.keys.keys());
    }
    out
}

/// What has been gathered for a command: the stored routes, the accounts, the merged sessions and
/// the covered aliases.
spec fn gathered(
    a: Action,
    tables: RouteTables,
    accounts: Seq<AccountLabel>,
    roots: Seq<String>,
    linked: Seq<SessionRouteKey>,
) -> bool {
    &&& tables.wf()
    &&& tables@ == a.tables
    &&& account_views(accounts) == a.accounts
    &&& views(roots).no_duplicates()
    &&& roots.len() >= 1
    &&& views(roots)[0] == a.root
    &&& forall|r: Seq<char>| #[trigger] views(roots).contains(r) <==> a.merges(r)
    &&& distinct_hashes(key_views(linked))
    &&& forall|h: Seq<char>| #[trigger] has_hash(key_views(linked), h) <==> a.covers(h)
    &&& forall|i: int|
        0 <= i < linked.len() ==> (#[trigger] linked[i]).kind@ == a.kind(linked[i].key_hash@)
}

/// An alias by its position among the covered ones.
proof fn covered_at(
    a: Action,
    tables: RouteTables,
    accounts: Seq<AccountLabel>,
    roots: Seq<String>,
    linked: Seq<SessionRouteKey>,
    i: int,
)
    requires
        gathered(a, tables, accounts, roots, linked),
        0 <= i < linked.len(),
    ensures
        a.covers(linked[i].key_hash@),
        linked[i].kind@ == a.kind(linked[i].key_hash@),
{
    assert(hash_at(key_views(linked), linked[i].key_hash@, i));
    assert(has_hash(key_views(linked), linked[i].key_hash@));
}

fn current_generation(
    tables: &RouteTables,
    accounts: &Vec<AccountLabel>,
    roots: &Vec<String>,
    linked: &Vec<SessionRouteKey>,
    Ghost(a): Ghost<Action>,
) -> (r: i64)
    requires
        gathered(a, *tables, accounts@, roots@, linked@),
    ensures
        a.is_current(r as int),
        r == a.current(),
{
    let mut newest: i64 = 0;
    let mut i: usize = 0;
    while i < roots.len()
        invariant
            i <= roots.len(),
            gathered(a, *tables, accounts@, roots@, linked@),
            newest >= 0,
            newest == 0 || exists|r: Seq<char>| a.root_has(r, newest as int),
            forall|j: int|
                0 <= j < i && a.tables.roots.contains_key(#[trigger] views(roots@)[j])
                    ==> a.tables.roots[views(roots@)[j]].generation <= newest,
        decreases roots.len() - i,
    {
        assert(views(roots@).contains(views(roots@)[i as int]));
        if let Some(row) = tables.roots.get(&roots[i]) {
            assert(a.root_has(roots@[i as int]@, row.route_generation as int));
            if row.route_generation > newest {
                newest = row.route_generation;
            }
        }
        i += 1;
    }
    proof {
        assert forall|r: Seq<char>, x: int| #[trigger] a.root_has(r, x) implies x <= newest by {
            assert(views(roots@).contains(r));
            let j = views(roots@).index_of(r);
            assert(views(roots@)[j] == r);
        }
    }
    let mut k: usize = 0;
    while k < linked.len()
        invariant
            k <= linked.len(),
            gathered(a, *tables, accounts@, roots@, linked@),
            newest >= 0,
            newest == 0 || (exists|r: Seq<char>| a.root_has(r, newest as int)) || (exists|
                h: Seq<char>,
            |
                a.key_has(h, newest as int)),
            forall|r: Seq<char>, x: int| #[trigger] a.root_has(r, x) ==> x <= newest,
            forall|j: int|
                0 <= j < k && a.routed((#[trigger] linked@[j]).key_hash@)
                    ==> a.tables.affinity[linked@[j].key_hash@].generation <= newest,
        decreases linked.len() - k,
    {
        proof {
            covered_at(a, *tables, accounts@, roots@, linked@, k as int);
        }
        if let Some(row) = tables.affinity.get(&linked[k].key_hash) {
            if account_display_label(accounts, row.account_id).is_some() {
                assert(a.key_has(linked@[k as int].key_hash@, row.route_generation as int));
                if row.route_generation > newest {
                    newest = row.route_generation;
                }
            }
        }
        k += 1;
    }
    proof {
        assert forall|h: Seq<char>, x: int| #[trigger] a.key_has(h, x) implies x <= newest by {
            assert(has_hash(key_views(linked@), h));
            let j = choose|j: int| hash_at(key_views(linked@), h, j);
            assert(linked@[j].key_hash@ == h);
        }
        one_current(a, newest as int, a.current());
    }
    newest
}

/// There is one current generation only.
proof fn one_current(a: Action, g: int, other: int)
    requires
        a.is_current(g),
    ensures
        a.is_current(a.current()),
        a.is_current(other) ==> other == g,
        a.current() == g,
{
    let c = a.current();
    assert(a.is_current(c));
    assert(c <= g && g <= c) by {
        if c != 0 {
            if exists|r: Seq<char>| a.root_has(r, c) {
                let r = choose|r: Seq<char>| a.root_has(r, c);
                assert(a.root_has(r, c));
            } else {
                let h = choose|h: Seq<char>| a.key_has(h, c);
                assert(a.key_has(h, c));
            }
        }
        if g != 0 {
            if exists|r: Seq<char>| a.root_has(r, g) {
                let r = choose|r: Seq<char>| a.root_has(r, g);
                assert(a.root_has(r, g));
            } else {
                let h = choose|h: Seq<char>| a.key_has(h, g);
                assert(a.key_has(h, g));
            }
        }
    }
    if a.is_current(other) {
        if other != 0 {
            if exists|r: Seq<char>| a.root_has(r, other) {
                let r = choose|r: Seq<char>| a.root_has(r, other);
                assert(a.root_has(r, other));
            } else {
                let h = choose|h: Seq<char>| a.key_has(h, other);
                assert(a.key_has(h, other));
            }
        }
        if g != 0 {
            if exists|r: Seq<char>| a.root_has(r, g) {
                let r = choose|r: Seq<char>| a.root_has(r, g);
                assert(a.root_has(r, g));
            } else {
                let h = choose|h: Seq<char>| a.key_has(h, g);
                assert(a.key_has(h, g));
            }
        }
    }
}

/// What a look at each covered alias shows.
struct Survey {
    /// How many aliases are not bound to the effective account.
    misplaced: usize,
    /// Whether some alias is not stored under the command's session.
    unmapped: bool,
    /// Whether some alias is bound to an existing account.
    routed: bool,
    /// Whether some binding is older than the current generation.
    outdated: bool,
}

#[verifier::spinoff_prover]
fn survey(
    tables: &RouteTables,
    accounts: &Vec<AccountLabel>,
    roots: &Vec<String>,
    linked: &Vec<SessionRouteKey>,
    root: &str,
    effective: Option<u128>,
    current: i64,
    Ghost(a): Ghost<Action>,
) -> (s: Survey)
    requires
        gathered(a, *tables, accounts@, roots@, linked@),
        effective == a.effective(),
        current == a.current(),
        root@ == a.root,
    ensures
        s.misplaced == a.changed().len(),
        effective is Some ==> (s.misplaced > 0 <==> exists|h: Seq<char>| a.misplaced(h)),
        s.unmapped <==> exists|h: Seq<char>| a.unmapped(h),
        s.routed <==> exists|h: Seq<char>| a.routed(h),
        s.outdated <==> exists|h: Seq<char>| a.outdated(h),
        linked.len() == a.covered().len(),
{
    let ghost mut found: Seq<Seq<char>> = Seq::empty();
    let mut s = Survey { misplaced: 0, unmapped: false, routed: false, outdated: false };
    let mut i: usize = 0;
    while i < linked.len()
        invariant
            i <= linked.len(),
            gathered(a, *tables, accounts@, roots@, linked@),
            effective == a.effective(),
            current == a.current(),
            root@ == a.root,
            s.misplaced == found.len(),
            s.misplaced <= i,
            found.no_duplicates(),
            forall|h: Seq<char>| #[trigger]
                found.contains(h) <==> effective is Some && a.misplaced(h) && exists|j: int|
                    0 <= j < i && hash_at(key_views(linked@), h, j),
            s.unmapped <==> exists|j: int| 0 <= j < i && a.unmapped(#[trigger] linked@[j].key_hash@),
            s.routed <==> exists|j: int| 0 <= j < i && a.routed(#[trigger] linked@[j].key_hash@),
            s.outdated <==> exists|j: int| 0 <= j < i && a.outdated(#[trigger] linked@[j].key_hash@),
        decreases linked.len() - i,
    {
        let key = &linked[i];
        let ghost hash = key.key_hash@;
        let ghost before = found;
        proof {
            covered_at(a, *tables, accounts@, roots@, linked@, i as int);
            assert(hash_at(key_views(linked@), hash, i as int));
            if found.contains(hash) {
                let j = choose|j: int| 0 <= j < i && hash_at(key_views(linked@), hash, j);
                assert(key_views(linked@)[j].hash != key_views(linked@)[i as int].hash);
            }
        }
        match tables.keys.get(&key.key_hash) {
            Some(row) => {
                if !same(&row.root_key_hash, root) || !same(&row.kind, &key.kind) {
                    assert(a.unmapped(hash));
                    s.unmapped = true;
                } else {
                    assert(!a.unmapped(hash));
                }
            },
            None => {
                assert(a.unmapped(hash));
                s.unmapped = true;
            },
        }
        let mut placed = false;
        if let Some(row) = tables.affinity.get(&key.key_hash) {
            if account_display_label(accounts, row.account_id).is_some() {
                assert(a.routed(hash));
                s.routed = true;
                if row.route_generation != current {
                    assert(a.outdated(hash));
                    s.outdated = true;
                }
                placed = effective == Some(row.account_id) && same(&row.kind, &key.kind);
            }
        }
        if effective.is_some() && !placed {
            assert(a.misplaced(hash));
            s.misplaced = s.misplaced + 1;
            proof {
                found = found.push(hash);
                assert forall|h: Seq<char>| #[trigger]
                    found.contains(h) <==> before.contains(h) || h == hash by {
                    if before.contains(h) {
                        let k = before.index_of(h);
                        assert(found[k] == h);
                    }
                    if h == hash {
                        assert(found[before.len() as int] == h);
                    }
                }
            }
        } else {
            assert(effective is Some ==> !a.misplaced(hash));
        }
        proof {
            assert forall|h: Seq<char>| #[trigger]
                found.contains(h) <==> effective is Some && a.misplaced(h) && exists|j: int|
                    0 <= j < i + 1 && hash_at(key_views(linked@), h, j) by {
                if exists|j: int| 0 <= j < i + 1 && hash_at(key_views(linked@), h, j) {
                    let j = choose|j: int| 0 <= j < i + 1 && hash_at(key_views(linked@), h, j);
                    if j < i {
                        assert(0 <= j < i && hash_at(key_views(linked@), h, j));
                    }
                }
            }
        }
        i += 1;
    }
    proof {
        assert forall|h: Seq<char>| a.covers(h) implies exists|j: int|
            0 <= j < linked@.len() && #[trigger] linked@[j].key_hash@ == h && hash_at(
                key_views(linked@),
                h,
                j,
            ) by {
            assert(has_hash(key_views(linked@), h));
            let j = choose|j: int| hash_at(key_views(linked@), h, j);
            assert(linked@[j].key_hash@ == h);
        }
        assert(found.to_set() =~= a.changed());
        found.unique_seq_to_set();
        if exists|h: Seq<char>| a.misplaced(h) {
            let h = choose|h: Seq<char>| a.misplaced(h);
            assert(a.covers(h));
            if effective is Some {
                assert(found.contains(h));
            }
        }
        if s.misplaced > 0 {
            assert(found.contains(found[0]));
        }
        let hashes = Seq::new(linked@.len(), |j: int| linked@[j].key_hash@);
        assert forall|x: int, y: int|
            0 <= x < hashes.len() && 0 <= y < hashes.len() && x != y implies hashes[x]
            != hashes[y] by {
            if x < y {
                assert(key_views(linked@)[x].hash != key_views(linked@)[y].hash);
            } else {
                assert(key_views(linked@)[y].hash != key_views(linked@)[x].hash);
            }
        }
        assert forall|h: Seq<char>| hashes.to_set().contains(h) <==> a.covered().contains(h) by {
            if hashes.to_set().contains(h) {
                let j = choose|j: int| 0 <= j < hashes.len() && hashes[j] == h;
                covered_at(a, *tables, accounts@, roots@, linked@, j);
            }
            if a.covers(h) {
                let j = choose|j: int|
                    0 <= j < linked@.len() && #[trigger] linked@[j].key_hash@ == h && hash_at(
                        key_views(linked@),
                        h,
                        j,
                    );
                assert(hashes[j] == h);
            }
        }
        assert(hashes.to_set() =~= a.covered());
        hashes.unique_seq_to_set();
    }
    s
}

/// The labels of the accounts that the session is bound to or live on, in order.
fn previous_labels(
    tables: &RouteTables,
    accounts: &Vec<AccountLabel>,
    roots: &Vec<String>,
    linked: &Vec<SessionRouteKey>,
    live: &Vec<u128>,
    Ghost(a): Ghost<Action>,
) -> (r: Vec<String>)
    requires
        gathered(a, *tables, accounts@, roots@, linked@),
        live@ == a.live,
    ensures
        ascending(views(r@)),
        forall|l: Seq<char>| #[trigger] views(r@).to_set().contains(l) <==> a.was_on(l),
{
    let mut out: Vec<String> = Vec::new();
    let mut i: usize = 0;
    while i < linked.len()
        invariant
            i <= linked.len(),
            gathered(a, *tables, accounts@, roots@, linked@),
            ascending(views(out@)),
            forall|l: Seq<char>| #[trigger]
                views(out@).to_set().contains(l) <==> exists|j: int|
                    0 <= j < i && a.bound_to(#[trigger] linked@[j].key_hash@, l),
        decreases linked.len() - i,
    {
        let ghost before = views(out@).to_set();
        let ghost hash = linked@[i as int].key_hash@;
        proof {
            covered_at(a, *tables, accounts@, roots@, linked@, i as int);
        }
        if let Some(row) = tables.affinity.get(&linked[i].key_hash) {
            if let Some(label) = account_display_label(accounts, row.account_id) {
                assert(a.bound_to(hash, label@));
                insert_sorted(&mut out, &label);
                assert(views(out@).to_set() == before.insert(label@));
            }
        }
        i += 1;
    }
    proof {
        assert forall|l: Seq<char>| #[trigger]
            views(out@).to_set().contains(l) <==> exists|h: Seq<char>| a.bound_to(h, l) by {
            if exists|h: Seq<char>| a.bound_to(h, l) {
                let h = choose|h: Seq<char>| a.bound_to(h, l);
                assert(has_hash(key_views(linked@), h));
                let j = choose|j: int| hash_at(key_views(linked@), h, j);
                assert(linked@[j].key_hash@ == h);
                assert(a.bound_to(linked@[j].key_hash@, l));
            }
        }
    }
    let mut n: usize = 0;
    while n < live.len()
        invariant
            n <= live.len(),
            account_views(accounts@) == a.accounts,
            live@ == a.live,
            ascending(views(out@)),
            forall|l: Seq<char>| #[trigger]
                views(out@).to_set().contains(l) <==> (exists|h: Seq<char>| a.bound_to(h, l))
                    || exists|j: int| 0 <= j < n && a.live_on(j, l),
        decreases live.len() - n,
    {
        let ghost before = views(out@).to_set();
        if let Some(label) = account_display_label(accounts, live[n]) {
            assert(a.live_on(n as int, label@));
            insert_sorted(&mut out, &label);
            assert(views(out@).to_set() == before.insert(label@));
        }
        n += 1;
    }
    out
}

/// Aliases with those of `keys` written under one session.
pub open spec fn keys_written(
    m: Map<Seq<char>, KeyView>,
    keys: Seq<RouteKeyView>,
    root: Seq<char>,
    now: int,
) -> Map<Seq<char>, KeyView> {
    Map::new(
        |h: Seq<char>| m.contains_key(h) || has_hash(keys, h),
        |h: Seq<char>|
            if has_hash(keys, h) {
                KeyView { root, kind: kind_of(keys, h), updated_at: now }
            } else {
                m[h]
            },
    )
}

/// Bindings with those of `keys` written to one account.
pub open spec fn affinity_written(
    m: Map<Seq<char>, AffinityView>,
    keys: Seq<RouteKeyView>,
    account: u128,
    generation: int,
    now: int,
) -> Map<Seq<char>, AffinityView> {
    Map::new(
        |h: Seq<char>| m.contains_key(h) || has_hash(keys, h),
        |h: Seq<char>|
            if has_hash(keys, h) {
                AffinityView { kind: kind_of(keys, h), account, generation, last_used_at: now }
            } else {
                m[h]
            },
    )
}

/// Sessions without those listed.
spec fn roots_without(m: Map<Seq<char>, RootView>, list: Seq<Seq<char>>) -> Map<
    Seq<char>,
    RootView,
> {
    Map::new(|r: Seq<char>| m.contains_key(r) && !list.contains(r), |r: Seq<char>| m[r])
}

/// One more key adds its hash and its kind.
pub proof fn one_more_key(keys: Seq<RouteKeyView>, i: int)
    requires
        distinct_hashes(keys),
        0 <= i < keys.len(),
    ensures
        forall|h: Seq<char>| #[trigger]
            has_hash(keys.take(i + 1), h) <==> has_hash(keys.take(i), h) || h == keys[i].hash,
        kind_of(keys.take(i + 1), keys[i].hash) == keys[i].kind,
        forall|h: Seq<char>|
            has_hash(keys.take(i), h) ==> #[trigger] kind_of(keys.take(i + 1), h) == kind_of(
                keys.take(i),
                h,
            ),
        !has_hash(keys.take(i), keys[i].hash),
{
    let p = keys.take(i);
    let q = keys.take(i + 1);
    assert(distinct_hashes(q)) by {
        assert forall|x: int, y: int| 0 <= x < y < q.len() implies (#[trigger] q[x]).hash != (
        #[trigger] q[y]).hash by {
            assert(keys[x].hash != keys[y].hash);
        }
    }
    assert(distinct_hashes(p)) by {
        assert forall|x: int, y: int| 0 <= x < y < p.len() implies (#[trigger] p[x]).hash != (
        #[trigger] p[y]).hash by {
            assert(keys[x].hash != keys[y].hash);
        }
    }
    assert(hash_at(q, keys[i].hash, i));
    kind_is_unique(q, keys[i].hash, i);
    assert forall|h: Seq<char>| #[trigger] has_hash(q, h) <==> has_hash(p, h) || h
        == keys[i].hash by {
        if has_hash(p, h) {
            let k = choose|k: int| hash_at(p, h, k);
            assert(hash_at(q, h, k));
        }
        if has_hash(q, h) {
            let k = choose|k: int| hash_at(q, h, k);
            if k < i {
                assert(hash_at(p, h, k));
            }
        }
    }
    assert forall|h: Seq<char>| has_hash(p, h) implies #[trigger] kind_of(q, h) == kind_of(p, h) by {
        let k = choose|k: int| hash_at(p, h, k);
        assert(hash_at(q, h, k));
        kind_is_unique(q, h, k);
        kind_is_unique(p, h, k);
    }
    if has_hash(p, keys[i].hash) {
        let k = choose|k: int| hash_at(p, keys[i].hash, k);
        assert(keys[k].hash != keys[i].hash);
    }
}

/// Deletes the merged sessions, writes the command's own, and puts all covered aliases under it.
fn write_mapping(
    tables: &mut RouteTables,
    roots: &Vec<String>,
    linked: &Vec<SessionRouteKey>,
    root: &str,
    row: RootRow,
    now: i64,
)
    requires
        old(tables).wf(),
        distinct_hashes(key_views(linked@)),
        row.route_generation >= 0,
    ensures
        final(tables).wf(),
        final(tables)@.roots == roots_without(old(tables)@.roots, views(roots@)).insert(root@, row@),
        final(tables)@.keys == keys_written(
            old(tables)@.keys,
            key_views(linked@),
            root@,
            now as int,
        ),
        final(tables)@.affinity == old(tables)@.affinity,
{
    let ghost start = tables@;
    let ghost list = views(roots@);
    let ghost given = key_views(linked@);
    let mut i: usize = 0;
    assert(roots_without(start.roots, list.take(0)) =~= start.roots);
    while i < roots.len()
        invariant
            i <= roots.len(),
            list == views(roots@),
            tables.wf(),
            tables@.roots == roots_without(start.roots, list.take(i as int)),
            tables@.keys == start.keys,
            tables@.affinity == start.affinity,
        decreases roots.len() - i,
    {
        tables.roots.remove(&roots[i]);
        proof {
            let p = list.take(i as int);
            let q = list.take(i as int + 1);
            assert(q =~= p.push(list[i as int]));
            assert forall|r: Seq<char>| q.contains(r) <==> p.contains(r) || r == list[i as int] by {
                if p.contains(r) {
                    let k = p.index_of(r);
                    assert(q[k] == r);
                }
                if r == list[i as int] {
                    assert(q[i as int] == r);
                }
            }
            assert(roots_without(start.roots, q) =~= roots_without(start.roots, p).remove(
                list[i as int],
            ));
        }
        i += 1;
    }
    assert(list.take(list.len() as int) =~= list);
    tables.roots.insert(root, row);
    let ghost written = tables@.roots;
    let mut n: usize = 0;
    assert(keys_written(start.keys, given.take(0), root@, now as int) =~= start.keys);
    while n < linked.len()
        invariant
            n <= linked.len(),
            given == key_views(linked@),
            distinct_hashes(given),
            tables.wf(),
            tables@.roots == written,
            tables@.keys == keys_written(start.keys, given.take(n as int), root@, now as int),
            tables@.affinity == start.affinity,
        decreases linked.len() - n,
    {
        let key = &linked[n];
        tables.keys.insert(
            &key.key_hash,
            KeyRow { root_key_hash: root.to_owned(), kind: key.kind.clone(), updated_at: now },
        );
        proof {
            one_more_key(given, n as int);
            assert(keys_written(start.keys, given.take(n as int + 1), root@, now as int)
                =~= keys_written(start.keys, given.take(n as int), root@, now as int).insert(
                key.key_hash@,
                KeyView { root: root@, kind: key.kind@, updated_at: now as int },
            ));
        }
        n += 1;
    }
    assert(given.take(given.len() as int) =~= given);
}

/// Binds all covered aliases to one account.
fn write_affinity(
    tables: &mut RouteTables,
    linked: &Vec<SessionRouteKey>,
    account_id: u128,
    generation: i64,
    now: i64,
)
    requires
        old(tables).wf(),
        distinct_hashes(key_views(linked@)),
        generation >= 0,
    ensures
        final(tables).wf(),
        final(tables)@.roots == old(tables)@.roots,
        final(tables)@.keys == old(tables)@.keys,
        final(tables)@.affinity == affinity_written(
            old(tables)@.affinity,
            key_views(linked@),
            account_id,
            generation as int,
            now as int,
        ),
{
    let ghost start = tables@;
    let ghost given = key_views(linked@);
    let mut n: usize = 0;
    assert(affinity_written(
        start.affinity,
        given.take(0),
        account_id,
        generation as int,
        now as int,
    ) =~= start.affinity);
    while n < linked.len()
        invariant
            n <= linked.len(),
            given == key_views(linked@),
            distinct_hashes(given),
            generation >= 0,
            tables.wf(),
            tables@.roots == start.roots,
            tables@.keys == start.keys,
            tables@.affinity == affinity_written(
                start.affinity,
                given.take(n as int),
                account_id,
                generation as int,
                now as int,
            ),
        decreases linked.len() - n,
    {
        let key = &linked[n];
        tables.affinity.insert(
            &key.key_hash,
            AffinityRow {
                kind: key.kind.clone(),
                account_id,
                route_generation: generation,
                last_used_at: now,
            },
        );
        proof {
            one_more_key(given, n as int);
            let p = affinity_written(
                start.affinity,
                given.take(n as int),
                account_id,
                generation as int,
                now as int,
            );
            assert(affinity_written(
                start.affinity,
                given.take(n as int + 1),
                account_id,
                generation as int,
                now as int,
            ) =~= p.insert(
                key.key_hash@,
                AffinityView {
                    kind: key.kind@,
                    account: account_id,
                    generation: generation as int,
                    last_used_at: now as int,
                },
            ));
        }
        n += 1;
    }
    assert(given.take(given.len() as int) =~= given);
}

/// The command that a request gives, on what is stored and known.
pub open spec fn action_of(
    tables: TablesView,
    accounts: Seq<AccountLabelView>,
    eligible: Seq<u128>,
    smart: Option<u128>,
    live: Seq<u128>,
    request: SessionRouteActionRequest,
) -> Action {
    Action {
        tables,
        accounts,
        eligible,
        smart,
        live,
        root: request.root_key_hash@,
        keys: checked_keys(key_views(request.keys@))->Ok_0,
        target: request.checked(accounts)->Ok_0,
    }
}

/// Why a command is refused, where it is: the request as it stands, a session of which nothing is
/// known, or a generation that has no successor.
pub open spec fn action_failure(a: Action, request: SessionRouteActionRequest) -> Option<
    (AppErrorKind, Seq<char>),
> {
    match request.checked(a.accounts) {
        Err(e) => Some(e),
        Ok(_) => if a.unknown() {
            Some((AppErrorKind::NotFound, "no routed session matches the supplied fingerprints"@))
        } else if a.moves() && a.current() == i64::MAX {
            Some((AppErrorKind::Internal, "session route generation overflowed"@))
        } else {
            None
        },
    }
}

/// What a command answers.
pub open spec fn answers(
    response: SessionRouteActionResponse,
    a: Action,
    request: SessionRouteActionRequest,
) -> bool {
    &&& response.root_key_hash@ == a.root
    &&& response.session_fingerprint@ == a.root.take(12)
    &&& response.action == request.action
    &&& response.status == a.status()
    &&& response.requested_account.deep_view() == match a.target {
        Some(id) => label_of(a.accounts, id),
        None => None,
    }
    &&& response.effective_account.deep_view() == match a.effective() {
        Some(id) => label_of(a.accounts, id),
        None => None,
    }
    &&& ascending(views(response.previous_accounts@))
    &&& forall|l: Seq<char>| #[trigger]
        views(response.previous_accounts@).to_set().contains(l) <==> a.was_on(l)
    &&& response.route_generation == a.generation()
    &&& response.linked_route_count == a.covered().len()
    &&& response.changed_route_count == a.changed().len()
    &&& response.merged_root_count == a.merged().len()
    &&& response.dry_run == request.dry_run
}

/// Carries out one route command: merges the sessions of its keys into one, moves all their aliases
/// to the effective account where something is not there yet, and records the command. A dry run
/// decides the same and writes nothing.
#[verifier::spinoff_prover]
pub fn apply_session_route_action(
    tables: &mut RouteTables,
    accounts: &Vec<AccountLabel>,
    eligible: &Vec<u128>,
    smart: Option<u128>,
    request: &SessionRouteActionRequest,
    live: &Vec<u128>,
    now: i64,
) -> (r: Result<SessionRouteActionResponse, AppError>)
    requires
        old(tables).wf(),
    ensures
        final(tables).wf(),
        ({
            let a = action_of(
                old(tables)@,
                account_views(accounts@),
                eligible@,
                smart,
                live@,
                *request,
            );
            match r {
                Err(e) => action_failure(a, *request) == Some(e@) && final(tables)@ == old(
                    tables,
                )@,
                Ok(response) => {
                    &&& action_failure(a, *request) is None
                    &&& answers(response, a, *request)
                    &&& final(tables)@ == if request.dry_run {
                        old(tables)@
                    } else {
                        a.after(request.action, now as int)
                    }
                },
            }
        }),
{
    let (keys, target) = match check_request(accounts, request) {
        Ok(found) => found,
        Err(error) => return Err(error),
    };
    let ghost a = action_of(
        tables@,
        account_views(accounts@),
        eligible@,
        smart,
        live@,
        *request,
    );
    let root = &request.root_key_hash;
    let roots = linked_roots(tables, root, &keys);
    let linked = linked_keys(tables, root, &roots, &keys);
    assert(gathered(a, *tables, accounts@, roots@, linked@));
    let canonical = tables.roots.contains(root);
    let mut mapped_before = false;
    let mut i: usize = 0;
    while i < keys.len()
        invariant
            i <= keys.len(),
            tables.wf(),
            tables == old(tables),
            tables@ == a.tables,
            key_views(keys@) == a.keys,
            mapped_before <==> exists|j: int|
                0 <= j < i && a.tables.keys.contains_key(#[trigger] a.keys[j].hash),
        decreases keys.len() - i,
    {
        assert(a.keys[i as int].hash == keys@[i as int].key_hash@);
        if tables.keys.contains(&keys[i].key_hash) {
            mapped_before = true;
        }
        i += 1;
    }
    let (effective, falls_back) = match target {
        Some(id) => if holds_id(eligible, id) {
            (Some(id), false)
        } else {
            (smart, true)
        },
        None => (smart, false),
    };
    let current = current_generation(tables, accounts, &roots, &linked, Ghost(a));
    let seen = survey(
        tables,
        accounts,
        &roots,
        &linked,
        root,
        effective,
        current,
        Ghost(a),
    );
    if !canonical && !mapped_before && !seen.routed && live.len() == 0 {
        assert(a.unknown());
        return Err(not_found("no routed session matches the supplied fingerprints"));
    }
    assert(!a.unknown()) by {
        if mapped_before {
            let j = choose|j: int|
                0 <= j < a.keys.len() && a.tables.keys.contains_key(#[trigger] a.keys[j].hash);
            assert(a.tables.keys.contains_key(a.keys[j].hash));
        }
    }
    let previous_accounts = previous_labels(tables, accounts, &roots, &linked, live, Ghost(a));
    let mut live_elsewhere = false;
    let mut n: usize = 0;
    while n < live.len()
        invariant
            n <= live.len(),
            live@ == a.live,
            effective == a.effective(),
            live_elsewhere <==> exists|j: int| 0 <= j < n && a.live_elsewhere(j),
        decreases live.len() - n,
    {
        if effective != Some(live[n]) {
            assert(a.live_elsewhere(n as int));
            live_elsewhere = true;
        } else {
            assert(!a.live_elsewhere(n as int));
        }
        n += 1;
    }
    assert(live_elsewhere <==> exists|j: int| a.live_elsewhere(j)) by {
        if exists|j: int| a.live_elsewhere(j) {
            let j = choose|j: int| a.live_elsewhere(j);
            assert(0 <= j < live.len() && a.live_elsewhere(j));
        }
    }
    let requires_move = effective.is_some() && (seen.misplaced != 0 || live_elsewhere || !canonical
        || seen.unmapped || seen.outdated);
    assert(requires_move == a.moves());
    if requires_move && current == i64::MAX {
        return Err(internal("session route generation overflowed"));
    }
    let route_generation: i64 = if requires_move { current + 1 } else { current };
    let status = if effective.is_none() {
        SessionRouteActionStatus::Pending
    } else if falls_back {
        SessionRouteActionStatus::Fallback
    } else if requires_move {
        SessionRouteActionStatus::Applied
    } else {
        SessionRouteActionStatus::NoOp
    };
    let requested_account = match target {
        Some(id) => account_display_label(accounts, id),
        None => None,
    };
    let effective_account = match effective {
        Some(id) => account_display_label(accounts, id),
        None => None,
    };
    if !request.dry_run {
        let row = RootRow {
            route_generation,
            last_action: Some(request.action.as_str().to_owned()),
            requested_account_id: target,
            effective_account_id: effective,
            action_status: Some(status.as_str().to_owned()),
            updated_at: now,
        };
        write_mapping(tables, &roots, &linked, root, row, now);
        if requires_move {
            if let Some(account_id) = effective {
                write_affinity(tables, &linked, account_id, route_generation, now);
            }
        }
        proof {
            written_is_after(
                a,
                key_views(linked@),
                views(roots@),
                tables@,
                request.action,
                now as int,
                row@,
            );
        }
    }
    proof {
        let rest = views(roots@).drop_first();
        assert(rest.no_duplicates());
        assert forall|r: Seq<char>| rest.to_set().contains(r) <==> a.merged().contains(r) by {
            if rest.contains(r) {
                let k = rest.index_of(r);
                assert(views(roots@)[k + 1] == r);
                assert(views(roots@).contains(r));
                assert(views(roots@)[0] != views(roots@)[k + 1]);
            }
            if a.merged().contains(r) {
                assert(views(roots@).contains(r));
                let k = views(roots@).index_of(r);
                assert(rest[k - 1] == r);
            }
        }
        assert(rest.to_set() =~= a.merged());
        rest.unique_seq_to_set();
    }
    Ok(
        SessionRouteActionResponse {
            root_key_hash: root.clone(),
            session_fingerprint: take_chars(root, 12),
            action: request.action,
            status,
            requested_account,
            effective_account,
            previous_accounts,
            route_generation,
            linked_route_count: linked.len(),
            changed_route_count: seen.misplaced,
            merged_root_count: roots.len() - 1,
            dry_run: request.dry_run,
        },
    )
}

/// What is written for the covered aliases and merged sessions is what the command leaves.
proof fn written_is_after(
    a: Action,
    linked: Seq<RouteKeyView>,
    roots: Seq<Seq<char>>,
    t: TablesView,
    action: SessionRouteActionKind,
    now: int,
    row: RootView,
)
    requires
        distinct_hashes(linked),
        forall|h: Seq<char>| #[trigger] has_hash(linked, h) <==> a.covers(h),
        forall|i: int| 0 <= i < linked.len() ==> (#[trigger] linked[i]).kind == a.kind(linked[i].hash),
        forall|r: Seq<char>| #[trigger] roots.contains(r) <==> a.merges(r),
        t.roots == roots_without(a.tables.roots, roots).insert(a.root, row),
        t.keys == keys_written(a.tables.keys, linked, a.root, now),
        t.affinity == if a.moves() {
            affinity_written(a.tables.affinity, linked, a.effective()->0, a.generation(), now)
        } else {
            a.tables.affinity
        },
        row == (RootView {
            generation: a.generation(),
            last_action: Some(action.text()),
            requested: a.target,
            effective: a.effective(),
            status: Some(a.status().text()),
            updated_at: now,
        }),
    ensures
        t == a.after(action, now),
{
    let want = a.after(action, now);
    assert forall|h: Seq<char>| a.covers(h) implies kind_of(linked, h) == a.kind(h) by {
        assert(has_hash(linked, h));
        let i = choose|i: int| hash_at(linked, h, i);
        kind_is_unique(linked, h, i);
    }
    assert(t.roots =~= want.roots);
    assert(t.keys =~= want.keys);
    assert(t.affinity =~= want.affinity);
}

} // verus!
