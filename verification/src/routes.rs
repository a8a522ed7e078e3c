//! Durable session routes: which hashed aliases belong to one session, which account each alias is
//! bound to, and the generation by which a route command overtakes what was bound before it.
use vstd::prelude::*;
use crate::error::{AppError, AppErrorKind, bad_request, not_found};
use crate::ids::{parse_uuid, uuid_of_text};
use crate::labels::{is_label, label_text, normal_label, normalize_label, bad_label};
use crate::table::Table;
use crate::text::{lower, same, to_lower, trim, trimmed};

verus! {

/// A session: the newest generation of its routes, and the last command given for it.
#[derive(Debug)]
pub struct RootRow {
    pub route_generation: i64,
    pub last_action: Option<String>,
    pub requested_account_id: Option<u128>,
    pub effective_account_id: Option<u128>,
    pub action_status: Option<String>,
    pub updated_at: i64,
}

/// One alias of a session.
#[derive(Debug)]
pub struct KeyRow {
    pub root_key_hash: String,
    pub kind: String,
    pub updated_at: i64,
}

/// The account that an alias is bound to.
#[derive(Debug)]
pub struct AffinityRow {
    pub kind: String,
    pub account_id: u128,
    pub route_generation: i64,
    pub last_used_at: i64,
}

pub struct RootView {
    pub generation: int,
    pub last_action: Option<Seq<char>>,
    pub requested: Option<u128>,
    pub effective: Option<u128>,
    pub status: Option<Seq<char>>,
    pub updated_at: int,
}

pub struct KeyView {
    pub root: Seq<char>,
    pub kind: Seq<char>,
    pub updated_at: int,
}

pub struct AffinityView {
    pub kind: Seq<char>,
    pub account: u128,
    pub generation: int,
    pub last_used_at: int,
}

impl View for RootRow {
    type V = RootView;

    open spec fn view(&self) -> RootView {
        RootView {
            generation: self.route_generation as int,
            last_action: self.last_action.deep_view(),
            requested: self.requested_account_id,
            effective: self.effective_account_id,
            status: self.action_status.deep_view(),
            updated_at: self.updated_at as int,
        }
    }
}

impl View for KeyRow {
    type V = KeyView;

    open spec fn view(&self) -> KeyView {
        KeyView {
            root: self.root_key_hash@,
            kind: self.kind@,
            updated_at: self.updated_at as int,
        }
    }
}

impl View for AffinityRow {
    type V = AffinityView;

    open spec fn view(&self) -> AffinityView {
        AffinityView {
            kind: self.kind@,
            account: self.account_id,
            generation: self.route_generation as int,
            last_used_at: self.last_used_at as int,
        }
    }
}

/// The stored routes: sessions by root hash, aliases and bindings by key hash.
pub struct RouteTables {
    pub roots: Table<RootRow>,
    pub keys: Table<KeyRow>,
    pub affinity: Table<AffinityRow>,
}

pub struct TablesView {
    pub roots: Map<Seq<char>, RootView>,
    pub keys: Map<Seq<char>, KeyView>,
    pub affinity: Map<Seq<char>, AffinityView>,
}

impl View for RouteTables {
    type V = TablesView;

    open spec fn view(&self) -> TablesView {
        TablesView {
            roots: self.roots.map(),
            keys: self.keys.map(),
            affinity: self.affinity.map(),
        }
    }
}

impl TablesView {
    /// Generations count up from zero, within the range of the stored column.
    pub open spec fn sound(self) -> bool {
        &&& forall|r: Seq<char>| #[trigger]
            self.roots.contains_key(r) ==> 0 <= self.roots[r].generation <= i64::MAX
        &&& forall|h: Seq<char>| #[trigger]
            self.affinity.contains_key(h) ==> 0 <= self.affinity[h].generation <= i64::MAX
    }
}

impl RouteTables {
    pub open spec fn wf(&self) -> bool {
        &&& self.roots.wf()
        &&& self.keys.wf()
        &&& self.affinity.wf()
        &&& self@.sound()
    }

    /// No routes.
    pub fn new() -> (r: Self)
        ensures
            r.wf(),
            r@.roots == Map::<Seq<char>, RootView>::empty(),
            r@.keys == Map::<Seq<char>, KeyView>::empty(),
            r@.affinity == Map::<Seq<char>, AffinityView>::empty(),
    {
        RouteTables { roots: Table::new(), keys: Table::new(), affinity: Table::new() }
    }

    /// Adds a stored session; false, and nothing is added, where its generation is negative.
    pub fn put_root(&mut self, root_key_hash: &str, row: RootRow) -> (r: bool)
        requires
            old(self).wf(),
        ensures
            final(self).wf(),
            r == (row.route_generation >= 0),
            final(self)@ == if r {
                (TablesView { roots: old(self)@.roots.insert(root_key_hash@, row@), ..old(self)@ })
            } else {
                old(self)@
            },
    {
        if row.route_generation < 0 {
            return false;
        }
        self.roots.insert(root_key_hash, row);
        true
    }

    /// Adds a stored alias.
    pub fn put_key(&mut self, key_hash: &str, row: KeyRow)
        requires
            old(self).wf(),
        ensures
            final(self).wf(),
            final(self)@ == (TablesView {
                keys: old(self)@.keys.insert(key_hash@, row@),
                ..old(self)@
            }),
    {
        self.keys.insert(key_hash, row);
    }

    /// Adds a stored binding; false, and nothing is added, where its generation is negative.
    pub fn put_affinity(&mut self, key_hash: &str, row: AffinityRow) -> (r: bool)
        requires
            old(self).wf(),
        ensures
            final(self).wf(),
            r == (row.route_generation >= 0),
            final(self)@ == if r {
                (TablesView {
                    affinity: old(self)@.affinity.insert(key_hash@, row@),
                    ..old(self)@
                })
            } else {
                old(self)@
            },
    {
        if row.route_generation < 0 {
            return false;
        }
        self.affinity.insert(key_hash, row);
        true
    }
}

/// An account as route commands know it.
#[derive(Debug)]
pub struct AccountLabel {
    pub id: u128,
    pub label: String,
}

pub struct AccountLabelView {
    pub id: u128,
    pub label: Seq<char>,
}

impl View for AccountLabel {
    type V = AccountLabelView;

    open spec fn view(&self) -> AccountLabelView {
        AccountLabelView { id: self.id, label: self.label@ }
    }
}

pub open spec fn account_views(accounts: Seq<AccountLabel>) -> Seq<AccountLabelView> {
    Seq::new(accounts.len(), |i: int| accounts[i]@)
}

/// A label as it is shown: an empty one has a word of its own.
pub open spec fn shown(label: Seq<char>) -> Seq<char> {
    if label.len() == 0 {
        "unlabeled"@
    } else {
        label
    }
}

/// The shown label of the first account with the given identifier.
pub open spec fn label_of(accounts: Seq<AccountLabelView>, id: u128) -> Option<Seq<char>>
    decreases accounts.len(),
{
    if accounts.len() == 0 {
        None
    } else if accounts[0].id == id {
        Some(shown(accounts[0].label))
    } else {
        label_of(accounts.drop_first(), id)
    }
}

pub fn show_label(label: &str) -> (r: String)
    ensures
        r@ == shown(label@),
{
    if label.is_empty() {
        "unlabeled".to_owned()
    } else {
        label.to_owned()
    }
}

/// The shown label of an account, where it exists.
pub fn account_display_label(accounts: &Vec<AccountLabel>, id: u128) -> (r: Option<String>)
    ensures
        r.deep_view() == label_of(account_views(accounts@), id),
{
    let ghost all = account_views(accounts@);
    let mut i: usize = 0;
    assert(all.skip(0) =~= all);
    while i < accounts.len()
        invariant
            i <= accounts.len(),
            all == account_views(accounts@),
            label_of(all, id) == label_of(all.skip(i as int), id),
        decreases accounts.len() - i,
    {
        assert(all.skip(i as int).drop_first() =~= all.skip(i as int + 1));
        if accounts[i].id == id {
            return Some(show_label(&accounts[i].label));
        }
        i += 1;
    }
    None
}

/// The accounts whose label, trimmed of spaces and in lower case, is the given one.
pub open spec fn labelled(accounts: Seq<AccountLabelView>, label: Seq<char>) -> Seq<AccountLabelView>
    decreases accounts.len(),
{
    if accounts.len() == 0 {
        Seq::empty()
    } else {
        let rest = labelled(accounts.drop_last(), label);
        if lower(label_text(accounts.last().label)) == label {
            rest.push(accounts.last())
        } else {
            rest
        }
    }
}

/// The account that a route target names: by identifier, else by its label, which must be that of
/// one account only.
pub open spec fn resolved_target(
    accounts: Seq<AccountLabelView>,
    target: Seq<char>,
) -> Result<u128, (AppErrorKind, Seq<char>)> {
    let name = trimmed(target);
    if name.len() == 0 {
        Err((AppErrorKind::BadRequest, "reroute target must not be empty"@))
    } else if uuid_of_text(name) is Some {
        if label_of(accounts, uuid_of_text(name)->0) is Some {
            Ok(uuid_of_text(name)->0)
        } else {
            Err((AppErrorKind::NotFound, "account target not found"@))
        }
    } else if !is_label(normal_label(name)) {
        Err((AppErrorKind::BadRequest, bad_label()))
    } else {
        let found = labelled(accounts, normal_label(name));
        if found.len() == 0 {
            Err((AppErrorKind::NotFound, "account target not found"@))
        } else if found.len() == 1 {
            Ok(found[0].id)
        } else {
            Err((AppErrorKind::BadRequest, "account target label is ambiguous"@))
        }
    }
}

#[derive(Debug)]
pub struct ResolvedSessionRouteTarget {
    pub account_id: u128,
    pub account_label: String,
}

/// Finds the account that a route target names, without regard to whether it can be used now.
pub fn resolve_session_route_target(accounts: &Vec<AccountLabel>, target: &str) -> (r: Result<
    ResolvedSessionRouteTarget,
    AppError,
>)
    ensures
        match r {
            Ok(found) => {
                &&& resolved_target(account_views(accounts@), target@) == Ok::<
                    u128,
                    (AppErrorKind, Seq<char>),
                >(found.account_id)
                &&& exists|i: int|
                    0 <= i < accounts.len() && (#[trigger] accounts@[i]).id == found.account_id
                        && found.account_label@ == shown(accounts@[i].label@)
            },
            Err(e) => resolved_target(account_views(accounts@), target@) == Err::<
                u128,
                (AppErrorKind, Seq<char>),
            >(e@),
        },
{
    let name = trim(target);
    if name.as_str().is_empty() {
        return Err(bad_request("reroute target must not be empty"));
    }
    if let Some(id) = parse_uuid(&name) {
        return match account_display_label(accounts, id) {
            Some(account_label) => {
                proof {
                    label_is_held(accounts@, id);
                }
                Ok(ResolvedSessionRouteTarget { account_id: id, account_label })
            },
            None => Err(not_found("account target not found")),
        };
    }
    let wanted = match normalize_label(&name) {
        Ok(label) => label,
        Err(error) => {
            proof {
                crate::text::trimmed_is_stable(target@);
            }
            return Err(error);
        },
    };
    proof {
        crate::text::trimmed_is_stable(target@);
    }
    let ghost all = account_views(accounts@);
    let mut found: Option<usize> = None;
    let mut count: usize = 0;
    let mut i: usize = 0;
    assert(all.take(0) =~= Seq::empty());
    while i < accounts.len()
        invariant
            i <= accounts.len(),
            all == account_views(accounts@),
            count == labelled(all.take(i as int), wanted@).len(),
            count <= i,
            count > 0 <==> found is Some,
            found matches Some(j) ==> j < accounts.len() && all[j as int] == labelled(
                all.take(i as int),
                wanted@,
            )[0],
        decreases accounts.len() - i,
    {
        proof {
            assert(all.take(i as int + 1).drop_last() =~= all.take(i as int));
        }
        if same(&to_lower(&crate::labels::trim_spaces(&accounts[i].label)), &wanted) {
            if found.is_none() {
                found = Some(i);
            }
            count += 1;
        }
        i += 1;
    }
    assert(all.take(all.len() as int) =~= all);
    match found {
        None => Err(not_found("account target not found")),
        Some(j) => if count == 1 {
            Ok(
                ResolvedSessionRouteTarget {
                    account_id: accounts[j].id,
                    account_label: show_label(&accounts[j].label),
                },
            )
        } else {
            Err(bad_request("account target label is ambiguous"))
        },
    }
}

proof fn label_is_held(accounts: Seq<AccountLabel>, id: u128)
    requires
        label_of(account_views(accounts), id) is Some,
    ensures
        exists|i: int|
            0 <= i < accounts.len() && (#[trigger] accounts[i]).id == id && Some(
                shown(accounts[i].label@),
            ) == label_of(account_views(accounts), id),
    decreases accounts.len(),
{
    if accounts.len() > 0 && accounts[0].id != id {
        let rest = accounts.drop_first();
        assert(account_views(accounts).drop_first() =~= account_views(rest));
        label_is_held(rest, id);
        let i = choose|i: int|
            0 <= i < rest.len() && (#[trigger] rest[i]).id == id && Some(shown(rest[i].label@))
                == label_of(account_views(rest), id);
        assert(accounts[i + 1] == rest[i]);
    } else if accounts.len() > 0 {
        assert(accounts[0].id == id);
    }
}

/// The label of an account is found by its identifier; an account without one is said to have none.
pub proof fn labels_are_found_by_identifier(accounts: Seq<AccountLabelView>, id: u128, i: int)
    requires
        0 <= i < accounts.len(),
        accounts[i].id == id,
        forall|j: int| 0 <= j < i ==> (#[trigger] accounts[j]).id != id,
    ensures
        accounts[i].label.len() > 0 ==> label_of(accounts, id) == Some(accounts[i].label),
        accounts[i].label.len() == 0 ==> label_of(accounts, id) == Some("unlabeled"@),
    decreases i,
{
    if i > 0 {
        assert(accounts[0].id != id);
        let rest = accounts.drop_first();
        assert forall|j: int| 0 <= j < i - 1 implies (#[trigger] rest[j]).id != id by {
            assert(rest[j] == accounts[j + 1]);
        }
        labels_are_found_by_identifier(rest, id, i - 1);
    }
}

/// An account that is not there has no label.
pub proof fn absent_accounts_have_no_label(accounts: Seq<AccountLabelView>, id: u128)
    requires
        forall|j: int| 0 <= j < accounts.len() ==> (#[trigger] accounts[j]).id != id,
    ensures
        label_of(accounts, id) is None,
    decreases accounts.len(),
{
    if accounts.len() > 0 {
        assert(accounts[0].id != id);
        let rest = accounts.drop_first();
        assert forall|j: int| 0 <= j < rest.len() implies (#[trigger] rest[j]).id != id by {
            assert(rest[j] == accounts[j + 1]);
        }
        absent_accounts_have_no_label(rest, id);
    }
}

proof fn labelled_accounts_have_the_label(accounts: Seq<AccountLabelView>, label: Seq<char>, i: int)
    ensures
        0 <= i < accounts.len() && lower(label_text(accounts[i].label)) == label ==> labelled(
            accounts,
            label,
        ).contains(accounts[i]),
        0 <= i < labelled(accounts, label).len() ==> exists|k: int|
            0 <= k < accounts.len() && #[trigger] accounts[k] == labelled(accounts, label)[i]
                && lower(label_text(accounts[k].label)) == label,
    decreases accounts.len(),
{
    if accounts.len() > 0 {
        let rest = accounts.drop_last();
        let found = labelled(rest, label);
        let all = labelled(accounts, label);
        let last = accounts.len() - 1;
        labelled_accounts_have_the_label(rest, label, i);
        if 0 <= i < rest.len() && lower(label_text(accounts[i].label)) == label {
            assert(rest[i] == accounts[i]);
            let k = found.index_of(rest[i]);
            assert(all[k] == accounts[i]);
        }
        if i == last && lower(label_text(accounts[i].label)) == label {
            assert(all[found.len() as int] == accounts[i]);
        }
        if 0 <= i < found.len() {
            let k = choose|k: int|
                0 <= k < rest.len() && #[trigger] rest[k] == found[i] && lower(
                    label_text(rest[k].label),
                ) == label;
            assert(accounts[k] == all[i]);
        } else if i == found.len() && i < all.len() {
            assert(accounts[last] == all[i]);
        }
    }
}

/// A target is named by its identifier or by its label: the account that is found is there and has that
/// identifier, or that label and no other account has it.
pub proof fn targets_are_named(accounts: Seq<AccountLabelView>, target: Seq<char>, id: u128)
    requires
        resolved_target(accounts, target) == Ok::<u128, (AppErrorKind, Seq<char>)>(id),
    ensures
        trimmed(target).len() > 0,
        uuid_of_text(trimmed(target)) is Some ==> uuid_of_text(trimmed(target)) == Some(id)
            && label_of(accounts, id) is Some,
        uuid_of_text(trimmed(target)) is None ==> exists|k: int|
            0 <= k < accounts.len() && (#[trigger] accounts[k]).id == id && lower(
                label_text(accounts[k].label),
            ) == normal_label(trimmed(target)),
{
    if uuid_of_text(trimmed(target)) is None {
        labelled_accounts_have_the_label(accounts, normal_label(trimmed(target)), 0);
    }
}

/// A target that names nothing, or an account that is not there, or more than one account, is refused.
pub proof fn unclear_targets_are_refused(
    accounts: Seq<AccountLabelView>,
    target: Seq<char>,
    i: int,
    j: int,
)
    ensures
        trimmed(target).len() == 0 ==> resolved_target(accounts, target) is Err,
        uuid_of_text(trimmed(target)) is Some && label_of(
            accounts,
            uuid_of_text(trimmed(target))->0,
        ) is None ==> resolved_target(accounts, target) is Err,
        trimmed(target).len() > 0 && uuid_of_text(trimmed(target)) is Some && label_of(
            accounts,
            uuid_of_text(trimmed(target))->0,
        ) is Some ==> resolved_target(accounts, target) is Ok,
        uuid_of_text(trimmed(target)) is None && !is_label(normal_label(trimmed(target)))
            ==> resolved_target(accounts, target) is Err,
        uuid_of_text(trimmed(target)) is None && 0 <= i < accounts.len() && 0 <= j < accounts.len()
            && accounts[i] != accounts[j] && lower(label_text(accounts[i].label)) == normal_label(
            trimmed(target),
        ) && lower(label_text(accounts[j].label)) == normal_label(trimmed(target))
            ==> resolved_target(accounts, target) is Err,
{
    let label = normal_label(trimmed(target));
    labelled_accounts_have_the_label(accounts, label, i);
    labelled_accounts_have_the_label(accounts, label, j);
}

/// Rows are seen under their own names.
pub proof fn rows_are_seen_by_name(root: RootRow, key: KeyRow, affinity: AffinityRow)
    ensures
        root@.generation == root.route_generation,
        root@.requested == root.requested_account_id,
        root@.effective == root.effective_account_id,
        root@.updated_at == root.updated_at,
        root.last_action matches Some(t) ==> root@.last_action == Some(t@),
        root.action_status matches Some(t) ==> root@.status == Some(t@),
        key@.root == key.root_key_hash@,
        key@.kind == key.kind@,
        key@.updated_at == key.updated_at,
        affinity@.kind == affinity.kind@,
        affinity@.account == affinity.account_id,
        affinity@.generation == affinity.route_generation,
        affinity@.last_used_at == affinity.last_used_at,
{
}

} // verus!
