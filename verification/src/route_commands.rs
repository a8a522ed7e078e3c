//! Route commands on the accounts as they are now.
use vstd::prelude::*;
use crate::error::AppError;
use crate::route_actions::{
    action_failure, action_of, answers, apply_session_route_action, SessionRouteActionRequest,
    SessionRouteActionResponse,
};
use crate::routes::{account_views, AccountLabel, RouteTables};
use crate::routing::{
    account_is_eligible, chosen, eligible, open_to, preview_smart_account, Candidate,
};

verus! {

/// The accounts among the first `n` that can be used now.
pub open spec fn usable(candidates: Seq<Candidate>, now: i64, n: int) -> Seq<u128>
    decreases n,
{
    if n <= 0 {
        Seq::empty()
    } else if eligible(candidates[n - 1].account, now) {
        usable(candidates, now, n - 1).push(candidates[n - 1].account.id)
    } else {
        usable(candidates, now, n - 1)
    }
}

/// Whether an account is the one that the balancer would pick.
pub open spec fn is_pick(
    candidates: Seq<Candidate>,
    weighted: bool,
    now: i64,
    pick: Option<u128>,
) -> bool {
    match pick {
        Some(id) => exists|i: int|
            #[trigger] chosen(candidates, Seq::empty(), weighted, now, i)
                && candidates[i].account.id == id,
        None => forall|i: int|
            0 <= i < candidates.len() ==> !open_to(#[trigger] candidates[i], Seq::empty(), now),
    }
}

fn usable_accounts(candidates: &Vec<Candidate>, now: i64) -> (r: Vec<u128>)
    ensures
        r@ == usable(candidates@, now, candidates@.len() as int),
{
    let mut out: Vec<u128> = Vec::new();
    let mut i: usize = 0;
    assert(out@ =~= Seq::empty());
    while i < candidates.len()
        invariant
            i <= candidates.len(),
            out@ == usable(candidates@, now, i as int),
        decreases candidates.len() - i,
    {
        if account_is_eligible(&candidates[i].account, now) {
            out.push(candidates[i].account.id);
        }
        i += 1;
    }
    out
}

/// Carries out a route command: an account that is asked for is taken where it can be used now, else
/// the one that the balancer picks.
pub fn command_session(
    tables: &mut RouteTables,
    accounts: &Vec<AccountLabel>,
    candidates: &Vec<Candidate>,
    weighted: bool,
    request: &SessionRouteActionRequest,
    live: &Vec<u128>,
    now: i64,
) -> (r: Result<SessionRouteActionResponse, AppError>)
    requires
        old(tables).wf(),
    ensures
        final(tables).wf(),
        exists|pick: Option<u128>|
            #[trigger] is_pick(candidates@, weighted, now, pick) && ({
                let a = action_of(
                    old(tables)@,
                    account_views(accounts@),
                    usable(candidates@, now, candidates@.len() as int),
                    pick,
                    live@,
                    *request,
                );
                match r {
                    Err(e) => action_failure(a, *request) == Some(e@) && final(tables)@ == old(
                        tables,
                    )@,
                    Ok(response) => {
                        &&& action_failure(a, *request) is None
                        &&& answers(response, a, *request)
                        &&& final(tables)@ == if request.dry_run {
                            old(tables)@
                        } else {
                            a.after(request.action, now as int)
                        }
                    },
                }
            }),
{
    let free = usable_accounts(candidates, now);
    let none: Vec<u128> = Vec::new();
    assert(none@ =~= Seq::empty());
    let pick = match preview_smart_account(candidates, &none, weighted, now) {
        Some(i) => Some(candidates[i].account.id),
        None => None,
    };
    assert(is_pick(candidates@, weighted, now, pick));
    apply_session_route_action(tables, accounts, &free, pick, request, live, now)
}

/// The accounts that can be used are those of the candidates that are eligible.
pub proof fn usable_accounts_are_eligible(candidates: Seq<Candidate>, now: i64, n: int, i: int, id: u128)
    requires
        0 <= n <= candidates.len(),
    ensures
        0 <= i < n && eligible(candidates[i].account, now) ==> usable(candidates, now, n).contains(
            candidates[i].account.id,
        ),
        usable(candidates, now, n).contains(id) ==> exists|k: int|
            0 <= k < n && eligible((#[trigger] candidates[k]).account, now)
                && candidates[k].account.id == id,
    decreases n,
{
    if n > 0 {
        usable_accounts_are_eligible(candidates, now, n - 1, i, id);
        let head = usable(candidates, now, n - 1);
        let last = candidates[n - 1].account;
        if eligible(last, now) {
            let all = usable(candidates, now, n);
            assert(all == head.push(last.id));
            assert(all[head.len() as int] == last.id);
            if 0 <= i < n - 1 && eligible(candidates[i].account, now) {
                let k = head.index_of(candidates[i].account.id);
                assert(all[k] == candidates[i].account.id);
            }
            if all.contains(id) {
                let k = all.index_of(id);
                if k < head.len() {
                    assert(head[k] == id);
                } else {
                    assert(candidates[n - 1].account.id == id);
                }
            }
        }
    }
}

/// The account that is picked is eligible; none is picked only where none is.
pub proof fn picks_are_eligible(
    candidates: Seq<Candidate>,
    weighted: bool,
    now: i64,
    pick: Option<u128>,
    i: int,
)
    requires
        is_pick(candidates, weighted, now, pick),
    ensures
        pick matches Some(id) ==> exists|k: int|
            0 <= k < candidates.len() && eligible((#[trigger] candidates[k]).account, now)
                && candidates[k].account.id == id,
        0 <= i < candidates.len() && eligible(candidates[i].account, now) ==> pick is Some,
{
    match pick {
        Some(id) => {
            let k = choose|k: int|
                #[trigger] chosen(candidates, Seq::empty(), weighted, now, k)
                    && candidates[k].account.id == id;
            assert(open_to(candidates[k], Seq::empty(), now));
        },
        None => {
            if 0 <= i < candidates.len() {
                assert(!open_to(candidates[i], Seq::empty(), now));
            }
        },
    }
}

} // verus!
