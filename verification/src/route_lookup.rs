//! Looking up the newest routing state of a session, and the commands that still wait for an account.
use vstd::prelude::*;
use crate::error::{AppError, AppErrorKind};
use crate::ids::{text_of_uuid, uuid_text};
use crate::keys::{
    RouteKeyView, SessionRouteActionKind, SessionRouteActionStatus, SessionRouteKey, checked_keys,
    distinct_hashes, key_views, parse_session_route_action, parse_session_route_status,
    too_many_keys, validate_session_route_keys,
};
use crate::route_actions::SessionRouteActionRequest;
use crate::route_binding::{EpochView, SessionRouteEpoch};
use crate::routes::{RootRow, RouteTables, TablesView};
use crate::text::{before, before_is_strict, before_is_transitive, comes_before, same, views};

verus! {

/// Whether the `i`th key belongs to a stored session.
pub open spec fn candidate(t: TablesView, keys: Seq<RouteKeyView>, i: int) -> bool {
    0 <= i < keys.len() && t.keys.contains_key(keys[i].hash) && t.roots.contains_key(
        t.keys[keys[i].hash].root,
    )
}

pub open spec fn root_at(t: TablesView, keys: Seq<RouteKeyView>, i: int) -> Seq<char> {
    t.keys[keys[i].hash].root
}

/// Whether the session of the `i`th key comes before that of the `j`th: the latest command first,
/// then the higher generation, then by root hash, then by key hash.
pub open spec fn precedes(t: TablesView, keys: Seq<RouteKeyView>, i: int, j: int) -> bool {
    let a = t.roots[root_at(t, keys, i)];
    let b = t.roots[root_at(t, keys, j)];
    ||| a.updated_at > b.updated_at
    ||| a.updated_at == b.updated_at && a.generation > b.generation
    ||| a.updated_at == b.updated_at && a.generation == b.generation && before(
        root_at(t, keys, i),
        root_at(t, keys, j),
    )
    ||| root_at(t, keys, i) == root_at(t, keys, j) && before(keys[i].hash, keys[j].hash)
}

/// The `i`th key gives the session's epoch: no other candidate comes before it.
pub open spec fn foremost(t: TablesView, keys: Seq<RouteKeyView>, i: int) -> bool {
    candidate(t, keys, i) && forall|j: int|
        #[trigger] candidate(t, keys, j) && j != i ==> precedes(t, keys, i, j)
}

pub open spec fn epoch_at(t: TablesView, keys: Seq<RouteKeyView>, i: int) -> EpochView {
    EpochView {
        root: root_at(t, keys, i),
        generation: t.roots[root_at(t, keys, i)].generation,
        key: keys[i].hash,
    }
}

/// At most one candidate is foremost.
pub proof fn one_foremost(t: TablesView, keys: Seq<RouteKeyView>, i: int, j: int)
    requires
        foremost(t, keys, i),
        foremost(t, keys, j),
    ensures
        i == j,
{
    if i != j {
        assert(precedes(t, keys, i, j) && precedes(t, keys, j, i));
        before_is_strict(root_at(t, keys, i), root_at(t, keys, j));
        before_is_strict(keys[i].hash, keys[j].hash);
    }
}

proof fn precedes_is_transitive(t: TablesView, keys: Seq<RouteKeyView>, i: int, j: int, k: int)
    requires
        precedes(t, keys, i, j),
        precedes(t, keys, j, k),
    ensures
        precedes(t, keys, i, k),
{
    let (a, b, c) = (root_at(t, keys, i), root_at(t, keys, j), root_at(t, keys, k));
    if before(a, b) && before(b, c) {
        before_is_transitive(a, b, c);
    }
    if before(keys[i].hash, keys[j].hash) && before(keys[j].hash, keys[k].hash) {
        before_is_transitive(keys[i].hash, keys[j].hash, keys[k].hash);
    }
    before_is_strict(a, b);
    before_is_strict(b, c);
}

/// The newest routing epoch that any of the keys belongs to.
pub fn resolve_session_route_epoch(tables: &RouteTables, keys: &Vec<SessionRouteKey>) -> (r: Result<
    Option<SessionRouteEpoch>,
    AppError,
>)
    requires
        tables.wf(),
    ensures
        match r {
            Err(e) => e@.0 == AppErrorKind::BadRequest && if keys.len() > 500 {
                e@.1 == too_many_keys()
            } else {
                checked_keys(key_views(keys@)) == Err::<Seq<RouteKeyView>, Seq<char>>(e@.1)
            },
            Ok(found) => {
                &&& keys.len() <= 500
                &&& checked_keys(key_views(keys@)) is Ok
                &&& ({
                    let given = checked_keys(key_views(keys@))->Ok_0;
                    match found {
                        None => forall|i: int| !#[trigger] candidate(tables@, given, i),
                        Some(epoch) => exists|i: int|
                            foremost(tables@, given, i) && #[trigger] epoch_at(tables@, given, i)
                                == epoch@,
                    }
                })
            },
        },
{
    let checked = match validate_session_route_keys(keys) {
        Ok(checked) => checked,
        Err(error) => return Err(error),
    };
    let ghost t = tables@;
    let ghost given = key_views(checked@);
    let mut best: Option<usize> = None;
    let mut i: usize = 0;
    while i < checked.len()
        invariant
            i <= checked.len(),
            tables.wf(),
            t == tables@,
            given == key_views(checked@),
            distinct_hashes(given),
            best is None ==> forall|j: int| 0 <= j < i ==> !#[trigger] candidate(t, given, j),
            best matches Some(b) ==> b < i && candidate(t, given, b as int) && forall|j: int|
                0 <= j < i && j != b && #[trigger] candidate(t, given, j) ==> precedes(
                    t,
                    given,
                    b as int,
                    j,
                ),
        decreases checked.len() - i,
    {
        if let Some(key) = tables.keys.get(&checked[i].key_hash) {
            if let Some(root) = tables.roots.get(&key.root_key_hash) {
                assert(candidate(t, given, i as int));
                match best {
                    None => {
                        best = Some(i);
                    },
                    Some(b) => {
                        proof {
                            assert(given[b as int].hash != given[i as int].hash);
                            before_is_strict(
                                root_at(t, given, b as int),
                                root_at(t, given, i as int),
                            );
                            before_is_strict(given[b as int].hash, given[i as int].hash);
                        }
                        if let Some(other) = tables.keys.get(&checked[b].key_hash) {
                            if let Some(row) = tables.roots.get(&other.root_key_hash) {
                                let first = if root.updated_at != row.updated_at {
                                    root.updated_at > row.updated_at
                                } else if root.route_generation != row.route_generation {
                                    root.route_generation > row.route_generation
                                } else if !same(&key.root_key_hash, &other.root_key_hash) {
                                    comes_before(&key.root_key_hash, &other.root_key_hash)
                                } else {
                                    comes_before(&checked[i].key_hash, &checked[b].key_hash)
                                };
                                if first {
                                    proof {
                                        assert(precedes(t, given, i as int, b as int));
                                        assert forall|j: int|
                                            0 <= j < i && #[trigger] candidate(
                                                t,
                                                given,
                                                j,
                                            ) implies precedes(t, given, i as int, j) by {
                                            if j != b {
                                                precedes_is_transitive(
                                                    t,
                                                    given,
                                                    i as int,
                                                    b as int,
                                                    j,
                                                );
                                            }
                                        }
                                    }
                                    best = Some(i);
                                } else {
                                    assert(precedes(t, given, b as int, i as int));
                                }
                            }
                        }
                    },
                }
            } else {
                assert(!candidate(t, given, i as int));
            }
        } else {
            assert(!candidate(t, given, i as int));
        }
        i += 1;
    }
    match best {
        None => Ok(None),
        Some(b) => {
            assert(foremost(t, given, b as int));
            assert(candidate(t, given, b as int));
            if let Some(key) = tables.keys.get(&checked[b].key_hash) {
                if let Some(root) = tables.roots.get(&key.root_key_hash) {
                    let epoch = SessionRouteEpoch {
                        root_key_hash: key.root_key_hash.clone(),
                        route_generation: root.route_generation,
                        selection_key_hash: checked[b].key_hash.clone(),
                    };
                    proof {
                        let all = checked_keys(key_views(keys@))->Ok_0;
                        assert(all == given);
                        assert(epoch_at(tables@, all, b as int) == epoch@);
                        assert(foremost(tables@, all, b as int));
                    }
                    return Ok(Some(epoch));
                }
            }
            Ok(None)
        },
    }
}

/// What is known of a session's last command.
#[derive(Debug)]
pub struct SessionRouteContext {
    pub root_key_hash: String,
    pub route_generation: i64,
    pub action: Option<SessionRouteActionKind>,
    pub action_status: Option<SessionRouteActionStatus>,
    pub requested_account_id: Option<u128>,
    pub effective_account_id: Option<u128>,
}

pub open spec fn action_named(
    name: Option<Seq<char>>,
    action: Option<SessionRouteActionKind>,
) -> bool {
    match (name, action) {
        (Some(text), Some(kind)) => kind.text() == text,
        (None, None) => true,
        _ => false,
    }
}

pub open spec fn status_named(
    name: Option<Seq<char>>,
    status: Option<SessionRouteActionStatus>,
) -> bool {
    match (name, status) {
        (Some(text), Some(kind)) => kind.text() == text,
        (None, None) => true,
        _ => false,
    }
}

pub open spec fn known_action(name: Option<Seq<char>>) -> bool {
    name matches Some(text) ==> text == "rebalance"@ || text == "reroute"@
}

pub open spec fn known_status(name: Option<Seq<char>>) -> bool {
    name matches Some(text) ==> text == "applied"@ || text == "fallback"@ || text == "pending"@
        || text == "no_op"@
}

/// The last command of the session that the keys belong to. An unknown stored action or status is
/// an internal fault.
pub fn resolve_session_route_context(
    tables: &RouteTables,
    keys: &Vec<SessionRouteKey>,
) -> (r: Result<Option<SessionRouteContext>, AppError>)
    requires
        tables.wf(),
    ensures
        ({
            let given = checked_keys(key_views(keys@))->Ok_0;
            match r {
                Err(e) => if keys.len() > 500 {
                    e@ == (AppErrorKind::BadRequest, too_many_keys())
                } else if checked_keys(key_views(keys@)) is Err {
                    e@ == (AppErrorKind::BadRequest, checked_keys(key_views(keys@))->Err_0)
                } else {
                    exists|i: int|
                        #![trigger foremost(tables@, given, i)]
                        foremost(tables@, given, i) && ({
                            let row = tables@.roots[root_at(tables@, given, i)];
                            e@ == if !known_action(row.last_action) {
                                (
                                    AppErrorKind::Internal,
                                    "database contains an invalid session route action"@,
                                )
                            } else {
                                (
                                    AppErrorKind::Internal,
                                    "database contains an invalid session route status"@,
                                )
                            } && !(known_action(row.last_action) && known_status(row.status))
                        })
                },
                Ok(found) => {
                    &&& keys.len() <= 500
                    &&& checked_keys(key_views(keys@)) is Ok
                    &&& match found {
                        None => forall|i: int| !#[trigger] candidate(tables@, given, i),
                        Some(context) => exists|i: int|
                            #![trigger foremost(tables@, given, i)]
                            foremost(tables@, given, i) && ({
                                let row = tables@.roots[root_at(tables@, given, i)];
                                &&& context.root_key_hash@ == root_at(tables@, given, i)
                                &&& context.route_generation == row.generation
                                &&& action_named(row.last_action, context.action)
                                &&& status_named(row.status, context.action_status)
                                &&& context.requested_account_id == row.requested
                                &&& context.effective_account_id == row.effective
                            }),
                    }
                },
            }
        }),
{
    let epoch = match resolve_session_route_epoch(tables, keys) {
        Ok(Some(epoch)) => epoch,
        Ok(None) => return Ok(None),
        Err(error) => return Err(error),
    };
    let ghost given = checked_keys(key_views(keys@))->Ok_0;
    let ghost at = choose|i: int|
        foremost(tables@, given, i) && #[trigger] epoch_at(tables@, given, i) == epoch@;
    assert(foremost(tables@, given, at));
    let row = match tables.roots.get(&epoch.root_key_hash) {
        Some(row) => row,
        None => return Ok(None),
    };
    let action = match &row.last_action {
        None => None,
        Some(text) => match parse_session_route_action(text) {
            Ok(action) => Some(action),
            Err(error) => return Err(error),
        },
    };
    let action_status = match &row.action_status {
        None => None,
        Some(text) => match parse_session_route_status(text) {
            Ok(status) => Some(status),
            Err(error) => return Err(error),
        },
    };
    Ok(
        Some(
            SessionRouteContext {
                root_key_hash: epoch.root_key_hash,
                route_generation: row.route_generation,
                action,
                action_status,
                requested_account_id: row.requested_account_id,
                effective_account_id: row.effective_account_id,
            },
        ),
    )
}

/// A session whose last command still waits for an account.
pub open spec fn waits(t: TablesView, r: Seq<char>) -> bool {
    &&& t.roots.contains_key(r)
    &&& t.roots[r].status == Some("pending"@)
    &&& t.roots[r].last_action == Some("rebalance"@) || t.roots[r].last_action == Some("reroute"@)
}

/// The order in which waiting commands are taken up: the oldest first, then by root hash.
pub open spec fn earlier(t: TablesView, a: Seq<char>, b: Seq<char>) -> bool {
    t.roots[a].updated_at < t.roots[b].updated_at || (t.roots[a].updated_at
        == t.roots[b].updated_at && before(a, b))
}

pub open spec fn in_turn(t: TablesView, list: Seq<Seq<char>>) -> bool {
    forall|i: int, j: int|
        0 <= i < j < list.len() ==> earlier(t, #[trigger] list[i], #[trigger] list[j])
}

/// The aliases of a session, by hash.
pub open spec fn lists_keys_of(t: TablesView, r: Seq<char>, keys: Seq<RouteKeyView>) -> bool {
    &&& forall|i: int, j: int|
        0 <= i < j < keys.len() ==> before((#[trigger] keys[i]).hash, (#[trigger] keys[j]).hash)
    &&& forall|i: int|
        0 <= i < keys.len() ==> t.keys.contains_key((#[trigger] keys[i]).hash)
            && t.keys[keys[i].hash].root == r && t.keys[keys[i].hash].kind == keys[i].kind
    &&& forall|h: Seq<char>| #[trigger]
        t.keys.contains_key(h) && t.keys[h].root == r ==> exists|i: int|
            0 <= i < keys.len() && (#[trigger] keys[i]).hash == h
}

fn keys_of_root(tables: &RouteTables, root: &str) -> (r: Vec<SessionRouteKey>)
    requires
        tables.wf(),
    ensures
        lists_keys_of(tables@, root@, key_views(r@)),
{
    let ghost t = tables@;
    let ghost rows = tables.keys.keys();
    let mut out: Vec<SessionRouteKey> = Vec::new();
    let mut n: usize = 0;
    while n < tables.keys.len()
        invariant
            n <= tables.keys.keys().len(),
            tables.wf(),
            t == tables@,
            rows == tables.keys.keys(),
            forall|i: int, j: int|
                0 <= i < j < out.len() ==> before(
                    (#[trigger] out@[i]).key_hash@,
                    (#[trigger] out@[j]).key_hash@,
                ),
            forall|i: int|
                0 <= i < out.len() ==> t.keys.contains_key((#[trigger] out@[i]).key_hash@)
                    && t.keys[out@[i].key_hash@].root == root@ && t.keys[out@[i].key_hash@].kind
                    == out@[i].kind@ && rows.take(n as int).contains(out@[i].key_hash@),
            forall|j: int|
                0 <= j < n && t.keys[#[trigger] rows[j]].root == root@ ==> exists|i: int|
                    0 <= i < out.len() && (#[trigger] out@[i]).key_hash@ == rows[j],
        decreases tables.keys.keys().len() - n,
    {
        let hash = tables.keys.key(n);
        let row = tables.keys.value(n);
        proof {
            let p = rows.take(n as int);
            let q = rows.take(n as int + 1);
            assert forall|h: Seq<char>| p.contains(h) implies q.contains(h) by {
                let k = p.index_of(h);
                assert(q[k] == h);
            }
            assert(q[n as int] == hash@);
            if p.contains(hash@) {
                let k = p.index_of(hash@);
                assert(rows[k] == rows[n as int]);
            }
        }
        let ghost old_out = out@;
        if same(&row.root_key_hash, root) {
            let mut at: usize = 0;
            while at < out.len() && comes_before(&out[at].key_hash, hash)
                invariant
                    at <= out.len(),
                    forall|i: int| 0 <= i < at ==> before((#[trigger] out@[i]).key_hash@, hash@),
                decreases out.len() - at,
            {
                at += 1;
            }
            out.insert(at, SessionRouteKey { key_hash: hash.clone(), kind: row.kind.clone() });
            proof {
                if at < old_out.len() {
                    before_is_strict(old_out[at as int].key_hash@, hash@);
                    assert(old_out[at as int].key_hash@ != hash@);
                }
                assert forall|i: int, j: int| 0 <= i < j < out.len() implies before(
                    (#[trigger] out@[i]).key_hash@,
                    (#[trigger] out@[j]).key_hash@,
                ) by {
                    if i == at {
                        if j - 1 > at {
                            before_is_transitive(
                                hash@,
                                old_out[at as int].key_hash@,
                                old_out[j - 1].key_hash@,
                            );
                        }
                    } else if j == at {
                    } else {
                        let i0 = if i < at { i } else { i - 1 };
                        let j0 = if j < at { j } else { j - 1 };
                        assert(before(old_out[i0].key_hash@, old_out[j0].key_hash@));
                    }
                }
                assert forall|i: int| 0 <= i < out.len() implies t.keys.contains_key(
                    (#[trigger] out@[i]).key_hash@,
                ) && t.keys[out@[i].key_hash@].root == root@ && t.keys[out@[i].key_hash@].kind
                    == out@[i].kind@ && rows.take(n as int + 1).contains(out@[i].key_hash@) by {
                    if i != at {
                        let i0 = if i < at { i } else { i - 1 };
                        assert(out@[i] == old_out[i0]);
                    }
                }
                assert forall|j: int|
                    0 <= j < n + 1 && t.keys[#[trigger] rows[j]].root == root@ implies exists|i: int|
                    0 <= i < out.len() && (#[trigger] out@[i]).key_hash@ == rows[j] by {
                    if j < n {
                        let i = choose|i: int|
                            0 <= i < old_out.len() && (#[trigger] old_out[i]).key_hash@ == rows[j];
                        assert(out@[if i < at { i } else { i + 1 }] == old_out[i]);
                    } else {
                        assert(out@[at as int].key_hash@ == rows[j]);
                    }
                }
            }
        }
        n += 1;
    }
    proof {
        assert forall|h: Seq<char>| #[trigger]
            t.keys.contains_key(h) && t.keys[h].root == root@ implies exists|i: int|
            0 <= i < key_views(out@).len() && (#[trigger] key_views(out@)[i]).hash == h by {
            let j = rows.index_of(h);
            assert(rows[j] == h);
            let i = choose|i: int| 0 <= i < out.len() && (#[trigger] out@[i]).key_hash@ == rows[j];
            assert(key_views(out@)[i].hash == h);
        }
    }
    out
}

/// The commands that wait for an account, at most `limit` of them (at least one, at most a
/// hundred), the oldest first. A reroute to an account that is gone waits as a rebalance.
#[verifier::spinoff_prover]
pub fn list_pending_session_route_actions(tables: &RouteTables, limit: i64) -> (r: Vec<
    SessionRouteActionRequest,
>)
    requires
        tables.wf(),
    ensures
        ({
            let t = tables@;
            let list = Seq::new(r@.len(), |i: int| r@[i].root_key_hash@);
            let most = if limit < 1 { 1 } else if limit > 100 { 100 } else { limit as int };
            &&& in_turn(t, list)
            &&& r.len() <= most
            &&& forall|i: int| 0 <= i < list.len() ==> waits(t, #[trigger] list[i])
            &&& forall|x: Seq<char>| #[trigger]
                waits(t, x) && !list.contains(x) ==> r.len() == most && forall|i: int|
                    0 <= i < list.len() ==> earlier(t, #[trigger] list[i], x)
            &&& forall|i: int|
                0 <= i < r.len() ==> {
                    let request = #[trigger] r@[i];
                    let row = t.roots[request.root_key_hash@];
                    &&& request.action == if row.last_action == Some("reroute"@) && row.requested
                        is Some {
                        SessionRouteActionKind::Reroute
                    } else {
                        SessionRouteActionKind::Rebalance
                    }
                    &&& request.target.deep_view() == match row.requested {
                        Some(id) => Some(text_of_uuid(id)),
                        None => None,
                    }
                    &&& lists_keys_of(t, request.root_key_hash@, key_views(request.keys@))
                    &&& !request.dry_run
                }
        }),
{
    let ghost t = tables@;
    let most: usize = if limit < 1 {
        1
    } else if limit > 100 {
        100
    } else {
        limit as usize
    };
    let roots = waiting_roots(tables, most);
    let mut out: Vec<SessionRouteActionRequest> = Vec::new();
    let mut i: usize = 0;
    while i < roots.len()
        invariant
            i <= roots.len(),
            tables.wf(),
            t == tables@,
            forall|k: int| 0 <= k < roots.len() ==> waits(t, #[trigger] views(roots@)[k]),
            out.len() == i,
            forall|k: int|
                0 <= k < i ==> {
                    let request = #[trigger] out@[k];
                    let row = t.roots[request.root_key_hash@];
                    &&& request.root_key_hash@ == views(roots@)[k]
                    &&& request.action == if row.last_action == Some("reroute"@) && row.requested
                        is Some {
                        SessionRouteActionKind::Reroute
                    } else {
                        SessionRouteActionKind::Rebalance
                    }
                    &&& request.target.deep_view() == match row.requested {
                        Some(id) => Some(text_of_uuid(id)),
                        None => None,
                    }
                    &&& lists_keys_of(t, request.root_key_hash@, key_views(request.keys@))
                    &&& !request.dry_run
                },
        decreases roots.len() - i,
    {
        assert(waits(t, views(roots@)[i as int]));
        if let Some(row) = tables.roots.get(&roots[i]) {
            let rerouted = match &row.last_action {
                Some(text) => same(text, "reroute"),
                None => false,
            };
            let action = if rerouted && row.requested_account_id.is_some() {
                SessionRouteActionKind::Reroute
            } else {
                SessionRouteActionKind::Rebalance
            };
            let target = match row.requested_account_id {
                Some(id) => Some(uuid_text(id)),
                None => None,
            };
            out.push(
                SessionRouteActionRequest {
                    root_key_hash: roots[i].clone(),
                    keys: keys_of_root(tables, &roots[i]),
                    action,
                    target,
                    dry_run: false,
                },
            );
        }
        i += 1;
    }
    proof {
        let list = Seq::new(out@.len(), |k: int| out@[k].root_key_hash@);
        assert(list =~= views(roots@));
    }
    out
}

fn is_waiting(row: &RootRow) -> (r: bool)
    ensures
        r == (row@.status == Some("pending"@) && (row@.last_action == Some("rebalance"@)
            || row@.last_action == Some("reroute"@))),
{
    let pending = match &row.action_status {
        Some(text) => same(text, "pending"),
        None => false,
    };
    let known = match &row.last_action {
        Some(text) => same(text, "rebalance") || same(text, "reroute"),
        None => false,
    };
    pending && known
}

proof fn earlier_is_transitive(t: TablesView, a: Seq<char>, b: Seq<char>, c: Seq<char>)
    requires
        earlier(t, a, b),
        earlier(t, b, c),
    ensures
        earlier(t, a, c),
{
    if before(a, b) && before(b, c) {
        before_is_transitive(a, b, c);
    }
}

/// The first `most` waiting sessions in their turn.
#[verifier::spinoff_prover]
fn waiting_roots(tables: &RouteTables, most: usize) -> (r: Vec<String>)
    requires
        tables.wf(),
        most >= 1,
    ensures
        in_turn(tables@, views(r@)),
        r.len() <= most,
        forall|i: int| 0 <= i < r.len() ==> waits(tables@, #[trigger] views(r@)[i]),
        forall|x: Seq<char>| #[trigger]
            waits(tables@, x) && !views(r@).contains(x) ==> r.len() == most && forall|i: int|
                0 <= i < r.len() ==> earlier(tables@, #[trigger] views(r@)[i], x),
{
    let ghost t = tables@;
    let ghost rows = tables.roots.keys();
    let mut out: Vec<String> = Vec::new();
    let mut n: usize = 0;
    while n < tables.roots.len()
        invariant
            n <= tables.roots.keys().len(),
            tables.wf(),
            t == tables@,
            rows == tables.roots.keys(),
            most >= 1,
            out.len() <= most,
            in_turn(t, views(out@)),
            forall|i: int|
                0 <= i < out.len() ==> waits(t, #[trigger] views(out@)[i]) && rows.take(
                    n as int,
                ).contains(views(out@)[i]),
            forall|j: int|
                0 <= j < n && waits(t, #[trigger] rows[j]) && !views(out@).contains(rows[j])
                    ==> out.len() == most && forall|i: int|
                    0 <= i < out.len() ==> earlier(t, #[trigger] views(out@)[i], rows[j]),
        decreases tables.roots.keys().len() - n,
    {
        let hash = tables.roots.key(n);
        let row = tables.roots.value(n);
        let ghost old_views = views(out@);
        proof {
            let p = rows.take(n as int);
            let q = rows.take(n as int + 1);
            assert forall|h: Seq<char>| p.contains(h) implies q.contains(h) by {
                let k = p.index_of(h);
                assert(q[k] == h);
            }
            assert(q[n as int] == hash@);
            if p.contains(hash@) {
                let k = p.index_of(hash@);
                assert(rows[k] == rows[n as int]);
            }
        }
        if is_waiting(row) {
            assert(waits(t, hash@));
            let mut at: usize = 0;
            let mut placed = false;
            while at < out.len() && !placed
                invariant
                    at <= out.len(),
                    tables.wf(),
                    t == tables@,
                    views(out@) == old_views,
                    row@ == t.roots[hash@],
                    forall|i: int| 0 <= i < out.len() ==> waits(t, #[trigger] old_views[i]),
                    forall|i: int| 0 <= i < out.len() ==> #[trigger] old_views[i] != hash@,
                    forall|i: int| 0 <= i < at ==> earlier(t, #[trigger] old_views[i], hash@),
                    placed ==> at < out.len() && earlier(t, hash@, old_views[at as int]),
                decreases out.len() - at + (if placed { 0int } else { 1int }),
            {
                assert(waits(t, old_views[at as int]));
                if let Some(other) = tables.roots.get(&out[at]) {
                    proof {
                        before_is_strict(old_views[at as int], hash@);
                    }
                    let first = if other.updated_at != row.updated_at {
                        other.updated_at < row.updated_at
                    } else {
                        comes_before(&out[at], hash)
                    };
                    if first {
                        at += 1;
                    } else {
                        placed = true;
                    }
                } else {
                    at += 1;
                }
            }
            out.insert(at, hash.clone());
            let ghost full = views(out@);
            proof {
                assert(full =~= old_views.insert(at as int, hash@));
                assert forall|i: int, j: int| 0 <= i < j < full.len() implies earlier(
                    t,
                    #[trigger] full[i],
                    #[trigger] full[j],
                ) by {
                    if i == at {
                        if j - 1 > at {
                            earlier_is_transitive(t, hash@, old_views[at as int], old_views[j - 1]);
                        }
                    } else if j == at {
                    } else {
                        let i0 = if i < at { i } else { i - 1 };
                        let j0 = if j < at { j } else { j - 1 };
                        assert(earlier(t, old_views[i0], old_views[j0]));
                    }
                }
                assert forall|i: int| 0 <= i < full.len() implies waits(t, #[trigger] full[i])
                    && rows.take(n as int + 1).contains(full[i]) by {
                    if i != at {
                        let i0 = if i < at { i } else { i - 1 };
                        assert(full[i] == old_views[i0]);
                    }
                }
                assert(full[at as int] == hash@);
                assert forall|x: Seq<char>| old_views.contains(x) implies full.contains(x) by {
                    let k = old_views.index_of(x);
                    assert(full[if k < at { k } else { k + 1 }] == x);
                }
            }
            if out.len() > most {
                let ghost last = full[most as int];
                out.truncate(most);
                proof {
                    let kept = views(out@);
                    assert(kept =~= full.take(most as int));
                    assert forall|i: int, j: int| 0 <= i < j < kept.len() implies earlier(
                        t,
                        #[trigger] kept[i],
                        #[trigger] kept[j],
                    ) by {
                        assert(earlier(t, full[i], full[j]));
                    }
                    assert forall|j: int|
                        0 <= j < n + 1 && waits(t, #[trigger] rows[j]) && !kept.contains(
                            rows[j],
                        ) implies forall|i: int|
                        0 <= i < kept.len() ==> earlier(t, #[trigger] kept[i], rows[j]) by {
                        if full.contains(rows[j]) {
                            let k = full.index_of(rows[j]);
                            if k < most {
                                assert(kept[k] == rows[j]);
                            }
                            assert(rows[j] == last);
                            assert forall|i: int| 0 <= i < kept.len() implies earlier(
                                t,
                                #[trigger] kept[i],
                                rows[j],
                            ) by {
                                assert(earlier(t, full[i], full[most as int]));
                            }
                        } else {
                            assert(j < n);
                            assert(!old_views.contains(rows[j]));
                            assert forall|i: int| 0 <= i < kept.len() implies earlier(
                                t,
                                #[trigger] kept[i],
                                rows[j],
                            ) by {
                                assert(full[i] == kept[i]);
                                assert(old_views.len() == most);
                                if i < at {
                                    assert(earlier(t, old_views[i], rows[j]));
                                } else {
                                    if i == at {
                                        assert(earlier(t, old_views[at as int], rows[j]));
                                        earlier_is_transitive(
                                            t,
                                            hash@,
                                            old_views[at as int],
                                            rows[j],
                                        );
                                    } else {
                                        assert(earlier(t, old_views[i - 1], rows[j]));
                                    }
                                }
                            }
                        }
                    }
                }
            } else {
                proof {
                    assert forall|j: int|
                        0 <= j < n + 1 && waits(t, #[trigger] rows[j]) && !views(out@).contains(
                            rows[j],
                        ) implies false by {
                        if j < n {
                            assert(!old_views.contains(rows[j]));
                        }
                    }
                }
            }
        } else {
            assert(!waits(t, hash@));
        }
        n += 1;
    }
    proof {
        assert forall|x: Seq<char>| #[trigger]
            waits(t, x) && !views(out@).contains(x) implies out.len() == most && forall|i: int|
            0 <= i < out.len() ==> earlier(t, #[trigger] views(out@)[i], x) by {
            let j = rows.index_of(x);
            assert(rows[j] == x);
        }
    }
    out
}

/// What a session may have been told, and how that went, are the texts of the actions and of their
/// outcomes, and no others.
pub proof fn actions_are_known_by_their_text(
    name: Seq<char>,
    action: SessionRouteActionKind,
    status: SessionRouteActionStatus,
)
    ensures
        known_action(Some(action.text())),
        known_status(Some(status.text())),
        known_action(None) && known_status(None),
        known_action(Some(name)) ==> exists|k: SessionRouteActionKind| name == #[trigger] k.text(),
        known_status(Some(name)) ==> exists|k: SessionRouteActionStatus| name == #[trigger] k.text(),
{
    if known_action(Some(name)) {
        assert(name == SessionRouteActionKind::Rebalance.text() || name
            == SessionRouteActionKind::Reroute.text());
    }
    if known_status(Some(name)) {
        assert(name == SessionRouteActionStatus::Applied.text() || name
            == SessionRouteActionStatus::Fallback.text() || name
            == SessionRouteActionStatus::Pending.text() || name
            == SessionRouteActionStatus::NoOp.text());
    }
}

} // verus!
