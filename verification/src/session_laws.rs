//! What holds of session trees as a whole.
use vstd::prelude::*;
use crate::sessions::{
    brings, canonical, connected, consistent, distinct_ids, has_node, has_tree, in_group, linked,
    listed_before, lists_trees, member, node_at, node_of, off_path, off_path_shrinks, parent_of, root_of, touches, tree_fault,
    tree_is, tree_of, written, CatalogView, RolloutNode, SessionErrorView, SessionTree,
};

verus! {

proof fn fewer_off_path(nodes: Seq<RolloutNode>, path: Seq<u128>, id: u128)
    requires
        has_node(nodes, id),
        !path.contains(id),
    ensures
        off_path(nodes, path.push(id)) < off_path(nodes, path),
{
    off_path_shrinks(nodes, path, id);
}

proof fn on_longer_path(path: Seq<u128>, id: u128)
    ensures
        forall|x: u128| #[trigger] path.push(id).contains(x) <==> path.contains(x) || x == id,
{
    let longer = path.push(id);
    assert forall|x: u128| #[trigger] longer.contains(x) <==> path.contains(x) || x == id by {
        if path.contains(x) {
            let k = path.index_of(x);
            assert(longer[k] == x);
        }
        if x == id {
            assert(longer[path.len() as int] == x);
        }
    }
}

/// A root that is found by way of some rollouts is found by way of fewer.
proof fn found_on_shorter_path(c: CatalogView, id: u128, path: Seq<u128>, shorter: Seq<u128>)
    requires
        forall|x: u128| #[trigger] shorter.contains(x) ==> path.contains(x),
        root_of(c, id, path) is Ok,
    ensures
        root_of(c, id, shorter) == root_of(c, id, path),
    decreases off_path(c.nodes, path),
{
    if has_node(c.nodes, id) {
        fewer_off_path(c.nodes, path, id);
        on_longer_path(path, id);
        on_longer_path(shorter, id);
        let node = node_of(c.nodes, id);
        let (p, q) = (path.push(id), shorter.push(id));
        if let Some(session) = node.session_id {
            if session != id && has_node(c.nodes, session) {
                found_on_shorter_path(c, session, p, q);
            }
        }
        if let Some(parent) = parent_of(node) {
            if root_of(c, parent, p) is Ok {
                found_on_shorter_path(c, parent, p, q);
            }
        }
    }
}

proof fn root_of_root(c: CatalogView, id: u128, path: Seq<u128>)
    requires
        root_of(c, id, path) is Ok,
    ensures
        canonical(c, root_of(c, id, path)->Ok_0) == root_of(c, id, path),
    decreases off_path(c.nodes, path),
{
    let none = Seq::<u128>::empty();
    let root = root_of(c, id, path)->Ok_0;
    found_on_shorter_path(c, id, path, none);
    if has_node(c.nodes, id) {
        fewer_off_path(c.nodes, path, id);
        let node = node_of(c.nodes, id);
        let longer = path.push(id);
        match node.session_id {
            Some(session) => {
                if session != id && has_node(c.nodes, session) {
                    found_on_shorter_path(c, session, longer, none);
                }
            },
            None => {
                if let Some(parent) = parent_of(node) {
                    root_of_root(c, parent, longer);
                }
            },
        }
    }
}

/// The root of a session belongs to that session.
pub proof fn roots_are_stable(c: CatalogView, id: u128)
    requires
        canonical(c, id) is Ok,
    ensures
        canonical(c, canonical(c, id)->Ok_0) == canonical(c, id),
{
    root_of_root(c, id, Seq::empty());
}

proof fn members_have_the_root(c: CatalogView, root: u128, x: u128, n: int)
    requires
        exists|i: int| 0 <= i < n && in_group(c, root, i),
        member(c, root, x, n),
    ensures
        canonical(c, x) == Ok::<u128, SessionErrorView>(root),
{
    if x == root {
        let i = choose|i: int| 0 <= i < n && in_group(c, root, i);
        roots_are_stable(c, c.nodes[i].id);
    } else {
        let i = choose|i: int| 0 <= i < n && brings(c, root, x, i);
        assert(brings(c, root, x, i));
    }
}

/// Every member of a listed tree belongs to the session of its root.
pub proof fn members_belong_to_the_root(c: CatalogView, tree: SessionTree, n: int, x: u128)
    requires
        tree_is(c, tree, n),
        tree.member_ids@.contains(x),
    ensures
        canonical(c, x) == Ok::<u128, SessionErrorView>(tree.root_id),
{
    members_have_the_root(c, tree.root_id, x, n);
}

/// No session is a member of two listed trees.
pub proof fn trees_do_not_overlap(
    c: CatalogView,
    trees: Seq<SessionTree>,
    n: int,
    i: int,
    j: int,
    x: u128,
)
    requires
        lists_trees(c, trees, n),
        0 <= i < j < trees.len(),
    ensures
        !(trees[i].member_ids@.contains(x) && trees[j].member_ids@.contains(x)),
{
    assert(trees[i].root_id != trees[j].root_id);
    if trees[i].member_ids@.contains(x) && trees[j].member_ids@.contains(x) {
        members_belong_to_the_root(c, trees[i], n, x);
        members_belong_to_the_root(c, trees[j], n, x);
    }
}

proof fn linked_on(nodes: Seq<RolloutNode>, a: u128, b: u128, x: u128, m: nat, n: nat)
    requires
        linked(nodes, a, b, m),
        linked(nodes, b, x, n),
    ensures
        linked(nodes, a, x, m + n),
    decreases n,
{
    if n > 0 {
        let less = (n - 1) as nat;
        assert((m + n - 1) as nat == m + less);
        if linked(nodes, b, x, less) {
            linked_on(nodes, a, b, x, m, less);
        } else {
            let (i, y) = choose|i: int, y: u128|
                0 <= i < nodes.len() && #[trigger] touches(nodes[i], y) && touches(nodes[i], x)
                    && linked(nodes, b, y, less);
            linked_on(nodes, a, b, y, m, less);
            assert(touches(nodes[i], y) && touches(nodes[i], x) && linked(nodes, a, y, m + less));
        }
    }
}

/// What is connected with something connected is connected.
pub proof fn connected_is_transitive(nodes: Seq<RolloutNode>, a: u128, b: u128, x: u128)
    requires
        connected(nodes, a, b),
        connected(nodes, b, x),
    ensures
        connected(nodes, a, x),
{
    let m = choose|m: nat| linked(nodes, a, b, m);
    let n = choose|n: nat| linked(nodes, b, x, n);
    linked_on(nodes, a, b, x, m, n);
}

proof fn one_link(nodes: Seq<RolloutNode>, i: int, a: u128, b: u128)
    requires
        0 <= i < nodes.len(),
        touches(nodes[i], a),
        touches(nodes[i], b),
    ensures
        connected(nodes, a, b),
{
    assert(linked(nodes, a, a, 0));
    assert(linked(nodes, a, b, 1));
}

proof fn linked_back(nodes: Seq<RolloutNode>, a: u128, b: u128, n: nat)
    requires
        linked(nodes, a, b, n),
    ensures
        connected(nodes, b, a),
    decreases n,
{
    if n == 0 {
        assert(linked(nodes, b, a, 0));
    } else {
        let less = (n - 1) as nat;
        if linked(nodes, a, b, less) {
            linked_back(nodes, a, b, less);
        } else {
            let (i, y) = choose|i: int, y: u128|
                0 <= i < nodes.len() && #[trigger] touches(nodes[i], y) && touches(nodes[i], b)
                    && linked(nodes, a, y, less);
            one_link(nodes, i, b, y);
            linked_back(nodes, a, y, less);
            connected_is_transitive(nodes, b, y, a);
        }
    }
}

/// Connected is so in both directions.
pub proof fn connected_is_symmetric(nodes: Seq<RolloutNode>, a: u128, b: u128)
    requires
        connected(nodes, a, b),
    ensures
        connected(nodes, b, a),
{
    let n = choose|n: nat| linked(nodes, a, b, n);
    linked_back(nodes, a, b, n);
}

proof fn root_is_connected(c: CatalogView, id: u128, path: Seq<u128>)
    requires
        root_of(c, id, path) is Ok,
    ensures
        connected(c.nodes, id, root_of(c, id, path)->Ok_0),
    decreases off_path(c.nodes, path),
{
    assert(linked(c.nodes, id, id, 0));
    if has_node(c.nodes, id) {
        fewer_off_path(c.nodes, path, id);
        let node = node_of(c.nodes, id);
        let longer = path.push(id);
        let i = choose|i: int| node_at(c.nodes, id, i);
        assert(node == c.nodes[i]);
        match node.session_id {
            Some(session) => {
                one_link(c.nodes, i, id, session);
            },
            None => {
                if let Some(parent) = parent_of(node) {
                    one_link(c.nodes, i, id, parent);
                    root_is_connected(c, parent, longer);
                    connected_is_transitive(
                        c.nodes,
                        id,
                        parent,
                        root_of(c, parent, longer)->Ok_0,
                    );
                }
            },
        }
    }
}

/// All members of the tree of a session are connected with it, so that what is checked before a
/// command covers all that the command names.
pub proof fn members_are_connected(c: CatalogView, id: u128, tree: SessionTree, x: u128)
    requires
        tree_of(c, id, tree),
        tree.member_ids@.contains(x),
    ensures
        connected(c.nodes, id, x),
{
    root_is_connected(c, id, Seq::empty());
    let root = tree.root_id;
    if exists|i: int| in_group(c, root, i) {
        members_have_the_root(c, root, x, c.nodes.len() as int);
        root_is_connected(c, x, Seq::empty());
        connected_is_symmetric(c.nodes, x, root);
        connected_is_transitive(c.nodes, id, root, x);
    } else {
        assert(x == root);
    }
}

/// Whether two catalogs tell the same of all that is connected with `id` in the first: every rollout
/// that touches any of it is in both or in neither, and both note the same issues of it.
pub open spec fn agree_on(c: CatalogView, d: CatalogView, id: u128) -> bool {
    &&& forall|n: RolloutNode, x: u128|
        #![trigger connected(c.nodes, id, x), touches(n, x)]
        connected(c.nodes, id, x) && touches(n, x) ==> (c.nodes.contains(n) <==> d.nodes.contains(
            n,
        ))
    &&& forall|x: u128| #[trigger]
        connected(c.nodes, id, x) ==> {
            &&& c.issues.contains_key(x) <==> d.issues.contains_key(x)
            &&& c.issues.contains_key(x) ==> c.issues[x] == d.issues[x]
        }
}

proof fn connected_by(nodes: Seq<RolloutNode>, id: u128, n: RolloutNode, y: u128, x: u128)
    requires
        nodes.contains(n),
        touches(n, y),
        touches(n, x),
        connected(nodes, id, y),
    ensures
        connected(nodes, id, x),
{
    let i = nodes.index_of(n);
    one_link(nodes, i, y, x);
    connected_is_transitive(nodes, id, y, x);
}

proof fn linked_in_both(c: CatalogView, d: CatalogView, id: u128, x: u128, steps: nat)
    requires
        agree_on(c, d, id),
        linked(c.nodes, id, x, steps) || linked(d.nodes, id, x, steps),
    ensures
        connected(c.nodes, id, x),
        connected(d.nodes, id, x),
    decreases steps,
{
    if steps == 0 {
        assert(linked(c.nodes, id, x, 0));
        assert(linked(d.nodes, id, x, 0));
    } else {
        let less = (steps - 1) as nat;
        if linked(c.nodes, id, x, less) || linked(d.nodes, id, x, less) {
            linked_in_both(c, d, id, x, less);
        } else {
            let nodes = if linked(c.nodes, id, x, steps) {
                c.nodes
            } else {
                d.nodes
            };
            let (i, y) = choose|i: int, y: u128|
                0 <= i < nodes.len() && #[trigger] touches(nodes[i], y) && touches(nodes[i], x)
                    && linked(nodes, id, y, less);
            linked_in_both(c, d, id, y, less);
            let n = nodes[i];
            assert(nodes.contains(n));
            assert(connected(c.nodes, id, y) && touches(n, y));
            connected_by(c.nodes, id, n, y, x);
            connected_by(d.nodes, id, n, y, x);
        }
    }
}

proof fn connected_in_both(c: CatalogView, d: CatalogView, id: u128)
    requires
        agree_on(c, d, id),
    ensures
        forall|x: u128|
            #![trigger connected(c.nodes, id, x)]
            #![trigger connected(d.nodes, id, x)]
            connected(c.nodes, id, x) <==> connected(d.nodes, id, x),
        agree_on(d, c, id),
{
    assert forall|x: u128|
        #![trigger connected(c.nodes, id, x)]
        #![trigger connected(d.nodes, id, x)]
        connected(c.nodes, id, x) <==> connected(d.nodes, id, x) by {
        if connected(c.nodes, id, x) {
            linked_in_both(c, d, id, x, choose|n: nat| linked(c.nodes, id, x, n));
        }
        if connected(d.nodes, id, x) {
            linked_in_both(c, d, id, x, choose|n: nat| linked(d.nodes, id, x, n));
        }
    }
}

proof fn same_node(c: CatalogView, d: CatalogView, id: u128, x: u128)
    requires
        distinct_ids(c.nodes),
        distinct_ids(d.nodes),
        agree_on(c, d, id),
        connected(c.nodes, id, x),
    ensures
        has_node(c.nodes, x) <==> has_node(d.nodes, x),
        has_node(c.nodes, x) ==> node_of(c.nodes, x) == node_of(d.nodes, x) && node_of(
            c.nodes,
            x,
        ).id == x && c.nodes.contains(node_of(c.nodes, x)),
{
    if has_node(c.nodes, x) {
        let i = choose|i: int| node_at(c.nodes, x, i);
        let n = c.nodes[i];
        assert(c.nodes.contains(n) && touches(n, x));
        let j = d.nodes.index_of(n);
        assert(node_at(d.nodes, x, j));
        let k = choose|k: int| node_at(d.nodes, x, k);
        if k != j {
            assert(d.nodes[j].id != d.nodes[k].id);
        }
    }
    if has_node(d.nodes, x) {
        let i = choose|i: int| node_at(d.nodes, x, i);
        let n = d.nodes[i];
        assert(d.nodes.contains(n) && touches(n, x));
        assert(node_at(c.nodes, x, c.nodes.index_of(n)));
    }
}

proof fn same_root(c: CatalogView, d: CatalogView, id: u128, x: u128, path: Seq<u128>)
    requires
        distinct_ids(c.nodes),
        distinct_ids(d.nodes),
        agree_on(c, d, id),
        connected(c.nodes, id, x),
    ensures
        root_of(c, x, path) == root_of(d, x, path),
    decreases off_path(c.nodes, path),
{
    same_node(c, d, id, x);
    if !c.issues.contains_key(x) && has_node(c.nodes, x) && !path.contains(x) {
        fewer_off_path(c.nodes, path, x);
        let node = node_of(c.nodes, x);
        let longer = path.push(x);
        assert(touches(node, x));
        if let Some(session) = node.session_id {
            assert(touches(node, session));
            connected_by(c.nodes, id, node, x, session);
            same_node(c, d, id, session);
            same_root(c, d, id, session, longer);
        }
        if let Some(parent) = parent_of(node) {
            assert(touches(node, parent));
            connected_by(c.nodes, id, node, x, parent);
            same_root(c, d, id, parent, longer);
        }
    }
}

/// A rollout of a session whose root is connected with `id` is in both catalogs.
proof fn same_group(c: CatalogView, d: CatalogView, id: u128, root: u128, i: int) -> (j: int)
    requires
        distinct_ids(c.nodes),
        distinct_ids(d.nodes),
        agree_on(c, d, id),
        connected(c.nodes, id, root),
        in_group(c, root, i),
    ensures
        in_group(d, root, j),
        d.nodes[j] == c.nodes[i],
        connected(c.nodes, id, c.nodes[i].id),
{
    let n = c.nodes[i];
    root_is_connected(c, n.id, Seq::empty());
    connected_is_symmetric(c.nodes, n.id, root);
    connected_is_transitive(c.nodes, id, root, n.id);
    assert(c.nodes.contains(n) && touches(n, n.id));
    same_root(c, d, id, n.id, Seq::empty());
    d.nodes.index_of(n)
}

proof fn same_member(c: CatalogView, d: CatalogView, id: u128, root: u128, x: u128)
    requires
        distinct_ids(c.nodes),
        distinct_ids(d.nodes),
        agree_on(c, d, id),
        connected(c.nodes, id, root),
        member(c, root, x, c.nodes.len() as int),
    ensures
        member(d, root, x, d.nodes.len() as int),
{
    if x != root {
        let i = choose|i: int| 0 <= i < c.nodes.len() && brings(c, root, x, i);
        let j = same_group(c, d, id, root, i);
        let n = c.nodes[i];
        assert(c.nodes.contains(n));
        connected_by(c.nodes, id, n, n.id, x);
        same_root(c, d, id, x, Seq::empty());
        assert(brings(d, root, x, j));
    }
}

proof fn same_writing(c: CatalogView, d: CatalogView, id: u128, root: u128, t: i64)
    requires
        distinct_ids(c.nodes),
        distinct_ids(d.nodes),
        agree_on(c, d, id),
        connected(c.nodes, id, root),
        written(c, root, t, c.nodes.len() as int),
    ensures
        written(d, root, t, d.nodes.len() as int),
{
    connected_in_both(c, d, id);
    assert forall|j: int| 0 <= j < d.nodes.len() && #[trigger] in_group(d, root, j) implies
        d.nodes[j].modified <= t by {
        let i = same_group(d, c, id, root, j);
        assert(in_group(c, root, i));
    }
    if t != 0 {
        let i = choose|i: int|
            0 <= i < c.nodes.len() && #[trigger] in_group(c, root, i) && c.nodes[i].modified == t;
        let j = same_group(c, d, id, root, i);
        assert(in_group(d, root, j) && d.nodes[j].modified == t);
    }
}

proof fn tree_in_both(c: CatalogView, d: CatalogView, id: u128, tree: SessionTree)
    requires
        distinct_ids(c.nodes),
        distinct_ids(d.nodes),
        agree_on(c, d, id),
        tree_of(c, id, tree),
    ensures
        tree_of(d, id, tree),
{
    let root = tree.root_id;
    connected_in_both(c, d, id);
    assert(linked(c.nodes, id, id, 0));
    same_root(c, d, id, id, Seq::empty());
    root_is_connected(c, id, Seq::empty());
    if exists|i: int| in_group(c, root, i) {
        let i = choose|i: int| in_group(c, root, i);
        let j = same_group(c, d, id, root, i);
        assert(0 <= j < d.nodes.len() && in_group(d, root, j));
        assert forall|x: u128| #[trigger] tree.member_ids@.contains(x) <==> member(
            d,
            root,
            x,
            d.nodes.len() as int,
        ) by {
            if member(c, root, x, c.nodes.len() as int) {
                same_member(c, d, id, root, x);
            }
            if member(d, root, x, d.nodes.len() as int) {
                same_member(d, c, id, root, x);
            }
        }
        same_writing(c, d, id, root, tree.modified);
    } else if exists|j: int| in_group(d, root, j) {
        let j = choose|j: int| in_group(d, root, j);
        let i = same_group(d, c, id, root, j);
        assert(in_group(c, root, i));
    }
}

proof fn fault_in_both(c: CatalogView, d: CatalogView, id: u128, e: SessionErrorView)
    requires
        distinct_ids(c.nodes),
        distinct_ids(d.nodes),
        agree_on(c, d, id),
    ensures
        consistent(c, id) ==> consistent(d, id),
        tree_fault(c, id, e) ==> tree_fault(d, id, e),
{
    connected_in_both(c, d, id);
    assert forall|x: u128| connected(c.nodes, id, x) implies canonical(c, x) == canonical(d, x) && (
    has_node(c.nodes, x) <==> has_node(d.nodes, x)) by {
        same_root(c, d, id, x, Seq::empty());
        same_node(c, d, id, x);
    }
}

/// Rollouts that are not connected with a session change nothing of it: whether its tree may be acted
/// on, which faults may be reported and what the tree is are the same where two catalogs agree on what
/// is connected with it, however damaged the rest is.
pub proof fn other_rollouts_change_nothing(
    c: CatalogView,
    d: CatalogView,
    id: u128,
    e: SessionErrorView,
    tree: SessionTree,
)
    requires
        distinct_ids(c.nodes),
        distinct_ids(d.nodes),
        agree_on(c, d, id),
    ensures
        consistent(c, id) <==> consistent(d, id),
        tree_fault(c, id, e) <==> tree_fault(d, id, e),
        tree_of(c, id, tree) <==> tree_of(d, id, tree),
{
    connected_in_both(c, d, id);
    fault_in_both(c, d, id, e);
    fault_in_both(d, c, id, e);
    if tree_of(c, id, tree) {
        tree_in_both(c, d, id, tree);
    }
    if tree_of(d, id, tree) {
        tree_in_both(d, c, id, tree);
    }
}

/// The root of a rollout, by what the rollout says: it is the session that it names, it is the root of
/// the thread that it came from, and a rollout that names neither is its own root.
pub proof fn roots_are_what_rollouts_say(c: CatalogView, i: int, root: u128, x: u128)
    requires
        distinct_ids(c.nodes),
        0 <= i < c.nodes.len(),
        canonical(c, c.nodes[i].id) == Ok::<u128, SessionErrorView>(root),
    ensures
        c.nodes[i].session_id == Some(x) ==> root == x,
        c.nodes[i].parent_thread_id == Some(x) ==> canonical(c, x) == Ok::<u128, SessionErrorView>(
            root,
        ),
        c.nodes[i].parent_thread_id is None && c.nodes[i].forked_from_id == Some(x) ==> canonical(
            c,
            x,
        ) == Ok::<u128, SessionErrorView>(root),
        c.nodes[i].session_id is None && c.nodes[i].parent_thread_id is None
            && c.nodes[i].forked_from_id is None ==> root == c.nodes[i].id,
        !c.issues.contains_key(c.nodes[i].id),
{
    let id = c.nodes[i].id;
    assert(node_at(c.nodes, id, i));
    let node = node_of(c.nodes, id);
    let j = choose|j: int| node_at(c.nodes, id, j);
    assert(node_at(c.nodes, id, j));
    if i < j {
        assert(c.nodes[i].id != c.nodes[j].id);
    } else if j < i {
        assert(c.nodes[j].id != c.nodes[i].id);
    }
    assert(node == c.nodes[i]);
    let none = Seq::<u128>::empty();
    if let Some(parent) = parent_of(node) {
        found_on_shorter_path(c, parent, none.push(id), none);
    }
}

/// A session of which no rollout is known is its own root, and one of which something is wrong has
/// none.
pub proof fn unknown_sessions_are_their_own_root(c: CatalogView, id: u128)
    ensures
        !c.issues.contains_key(id) && (forall|i: int|
            0 <= i < c.nodes.len() ==> (#[trigger] c.nodes[i]).id != id) ==> canonical(c, id) == Ok::<
            u128,
            SessionErrorView,
        >(id),
        c.issues.contains_key(id) ==> canonical(c, id) == Err::<u128, SessionErrorView>(
            SessionErrorView::Issue(c.issues[id]),
        ),
{
    if forall|i: int| 0 <= i < c.nodes.len() ==> (#[trigger] c.nodes[i]).id != id {
        assert forall|i: int| !node_at(c.nodes, id, i) by {
            if 0 <= i < c.nodes.len() {
                assert(c.nodes[i].id != id);
            }
        }
    }
}

/// Every rollout of a session is a member of its tree, the root is too, and the tree is as new as the
/// newest of its rollouts.
pub proof fn trees_hold_their_rollouts(c: CatalogView, tree: SessionTree, i: int)
    requires
        tree_is(c, tree, c.nodes.len() as int),
        0 <= i < c.nodes.len(),
        canonical(c, c.nodes[i].id) == Ok::<u128, SessionErrorView>(tree.root_id),
    ensures
        tree.member_ids@.contains(c.nodes[i].id),
        tree.member_ids@.contains(tree.root_id),
        tree.modified >= c.nodes[i].modified,
{
    assert(in_group(c, tree.root_id, i));
    assert(brings(c, tree.root_id, c.nodes[i].id, i));
    assert(member(c, tree.root_id, c.nodes[i].id, c.nodes.len() as int));
    assert(member(c, tree.root_id, tree.root_id, c.nodes.len() as int));
}

/// Trees are listed from the newest to the oldest, and every session that has a rollout is in the list.
pub proof fn newer_trees_are_listed_first(c: CatalogView, trees: Seq<SessionTree>, i: int, j: int)
    requires
        lists_trees(c, trees, c.nodes.len() as int),
        0 <= i < j < trees.len(),
    ensures
        trees[i].modified >= trees[j].modified,
        trees[i].modified == trees[j].modified ==> trees[i].root_id < trees[j].root_id,
{
    assert(listed_before(trees[i], trees[j]));
}

/// Every rollout whose root is known is in the tree of that root.
pub proof fn sessions_are_listed(c: CatalogView, trees: Seq<SessionTree>, i: int, root: u128)
    requires
        lists_trees(c, trees, c.nodes.len() as int),
        0 <= i < c.nodes.len(),
        canonical(c, c.nodes[i].id) == Ok::<u128, SessionErrorView>(root),
    ensures
        exists|j: int|
            0 <= j < trees.len() && (#[trigger] trees[j]).root_id == root
                && trees[j].member_ids@.contains(c.nodes[i].id),
{
    assert(in_group(c, root, i));
    assert(has_tree(trees, root));
    let j = choose|j: int| 0 <= j < trees.len() && (#[trigger] trees[j]).root_id == root;
    assert(tree_is(c, trees[j], c.nodes.len() as int));
    trees_hold_their_rollouts(c, trees[j], i);
}

/// The tree of a session is that of its root, and one of which no rollout is known is alone in it.
pub proof fn trees_are_of_the_root(c: CatalogView, id: u128, tree: SessionTree, x: u128)
    requires
        tree_of(c, id, tree),
    ensures
        canonical(c, id) == Ok::<u128, SessionErrorView>(tree.root_id),
        (forall|i: int| 0 <= i < c.nodes.len() ==> canonical(c, (#[trigger] c.nodes[i]).id) != Ok::<
            u128,
            SessionErrorView,
        >(tree.root_id)) ==> (tree.member_ids@.contains(x) <==> x == tree.root_id) && tree.modified == 0,
{
    if forall|i: int| 0 <= i < c.nodes.len() ==> canonical(c, (#[trigger] c.nodes[i]).id) != Ok::<
        u128,
        SessionErrorView,
    >(tree.root_id) {
        assert forall|i: int| !in_group(c, tree.root_id, i) by {
            if 0 <= i < c.nodes.len() {
                let node = c.nodes[i];
                assert(canonical(c, node.id) != Ok::<u128, SessionErrorView>(tree.root_id));
            }
        }
        assert(tree.member_ids@[0] == tree.root_id);
    }
}

} // verus!
