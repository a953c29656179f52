use vstd::prelude::*;

use crate::graph::{child_edge, children_spec, is_child_path, reachable};
use crate::model::{BranchNode, ParentRef};
use crate::restack::{
    advance_list, advance_walk, deleted_list, detach_list, head_lookup, load_active, merge_base_spec, ref_oid_spec,
    reparent_plan, restack_list, restack_walk, ActionView, LocalBranchHead, MergeBaseFact, PlanError,
};

verus! {

/// Whether some planned rebase is for the branch with id `x`.
pub open spec fn plan_has(r: Seq<ActionView>, x: u128) -> bool {
    exists|k: int| 0 <= k < r.len() && (#[trigger] r[k]).node_id == x
}

/// Whether `y` can be reached from one of `kids[i..]`.
pub open spec fn list_reaches(nodes: Seq<BranchNode>, kids: Seq<u128>, i: int, y: u128) -> bool {
    exists|j: int| i <= j < kids.len() && reachable(nodes, #[trigger] kids[j], y)
}

/// Whether a planned rebase moves its branch from the current head of the upstream it names.
pub open spec fn from_upstream_head(heads: Seq<LocalBranchHead>, a: ActionView) -> bool {
    head_lookup(heads, a.old_upstream_branch_name) == Some(a.old_upstream_oid)
}

proof fn lemma_plan_has_concat(a: Seq<ActionView>, b: Seq<ActionView>, x: u128)
    ensures
        plan_has(a + b, x) == (plan_has(a, x) || plan_has(b, x)),
{
    if plan_has(a + b, x) {
        let k = choose|k: int| 0 <= k < (a + b).len() && (#[trigger] (a + b)[k]).node_id == x;
        if k < a.len() {
            assert(a[k] == (a + b)[k]);
        } else {
            assert(b[k - a.len()] == (a + b)[k]);
        }
    }
    if plan_has(a, x) {
        let k = choose|k: int| 0 <= k < a.len() && (#[trigger] a[k]).node_id == x;
        assert((a + b)[k] == a[k]);
    }
    if plan_has(b, x) {
        let k = choose|k: int| 0 <= k < b.len() && (#[trigger] b[k]).node_id == x;
        assert((a + b)[k + a.len()] == b[k]);
    }
}

proof fn lemma_reach_self(nodes: Seq<BranchNode>, a: u128)
    ensures
        reachable(nodes, a, a),
{
    let path = seq![a];
    assert(is_child_path(nodes, path));
    assert(path[0] == a && path.last() == a);
}

proof fn lemma_reach_prepend(nodes: Seq<BranchNode>, a: u128, b: u128, c: u128)
    requires
        child_edge(nodes, a, b),
        reachable(nodes, b, c),
    ensures
        reachable(nodes, a, c),
{
    let path = choose|path: Seq<u128>| is_child_path(nodes, path) && path[0] == b && path.last() == c;
    let p2 = seq![a] + path;
    assert forall|k: int| 0 <= k < p2.len() - 1 implies child_edge(nodes, #[trigger] p2[k], p2[k + 1]) by {
        if k > 0 {
            assert(p2[k] == path[k - 1] && p2[k + 1] == path[k]);
        }
    }
    assert(is_child_path(nodes, p2));
    assert(p2[0] == a && p2.last() == c);
}

proof fn lemma_path_tail(nodes: Seq<BranchNode>, path: Seq<u128>)
    requires
        is_child_path(nodes, path),
        path.len() >= 2,
    ensures
        child_edge(nodes, path[0], path[1]),
        is_child_path(nodes, path.skip(1)),
        path.skip(1)[0] == path[1],
        path.skip(1).last() == path.last(),
        path.skip(1).len() == path.len() - 1,
{
    let t = path.skip(1);
    assert(child_edge(nodes, path[0], path[1]));
    assert forall|k: int| 0 <= k < t.len() - 1 implies child_edge(nodes, #[trigger] t[k], t[k + 1]) by {
        assert(t[k] == path[k + 1] && t[k + 1] == path[k + 2]);
        assert(child_edge(nodes, path[k + 1], path[k + 2]));
    }
}

/// A child path from `c` that goes round the loop `c .. id -> c` at least `k` times.
proof fn lemma_loop_path(nodes: Seq<BranchNode>, q: Seq<u128>, c: u128, id: u128, k: nat) -> (p: Seq<u128>)
    requires
        is_child_path(nodes, q),
        q[0] == c,
        q.last() == id,
        child_edge(nodes, id, c),
    ensures
        is_child_path(nodes, p),
        p[0] == c,
        p.last() == id,
        p.len() >= k,
    decreases k,
{
    if k <= 1 {
        q
    } else {
        let p = lemma_loop_path(nodes, q, c, id, (k - 1) as nat);
        let r = p + q;
        assert forall|j: int| 0 <= j < r.len() - 1 implies child_edge(nodes, #[trigger] r[j], r[j + 1]) by {
            if j < p.len() - 1 {
                assert(r[j] == p[j] && r[j + 1] == p[j + 1]);
            } else if j == p.len() - 1 {
                assert(r[j] == id && r[j + 1] == c);
            } else {
                assert(r[j] == q[j - p.len()] && r[j + 1] == q[j + 1 - p.len()]);
            }
        }
        assert(r[0] == c);
        assert(r.last() == id);
        r
    }
}

proof fn lemma_kid_index(nodes: Seq<BranchNode>, p: u128, c: u128) -> (j: int)
    requires
        child_edge(nodes, p, c),
    ensures
        0 <= j < children_spec(nodes, p).len(),
        children_spec(nodes, p)[j] == c,
{
    choose|j: int| 0 <= j < children_spec(nodes, p).len() && children_spec(nodes, p)[j] == c
}

// The rebases after an upstream moved.

proof fn lemma_advance_walk_complete(
    nodes: Seq<BranchNode>,
    heads: Seq<LocalBranchHead>,
    x: u128,
    un: Seq<char>,
    uo: Seq<char>,
    f: nat,
    path: Seq<u128>,
)
    requires
        advance_walk(nodes, heads, x, un, uo, f) is Ok,
        is_child_path(nodes, path),
        path[0] == x,
    ensures
        plan_has(advance_walk(nodes, heads, x, un, uo, f)->Ok_0, path.last()),
        path.len() <= f,
    decreases f, 0nat,
{
    let r = advance_walk(nodes, heads, x, un, uo, f)->Ok_0;
    let n = load_active(nodes, heads, x)->Ok_0;
    let kids = children_spec(nodes, x);
    assert(r[0].node_id == x);
    if path.len() == 1 {
        assert(path.last() == x);
    } else {
        lemma_path_tail(nodes, path);
        let j = lemma_kid_index(nodes, x, path[1]);
        let head = ref_oid_spec(heads, n.branch_name@)->Ok_0;
        let rest = advance_list(nodes, heads, kids, 0, n.branch_name@, head, (f - 1) as nat)->Ok_0;
        lemma_advance_list_complete(nodes, heads, kids, 0, n.branch_name@, head, (f - 1) as nat, j, path.skip(1));
        lemma_plan_has_concat(seq![r[0]], rest, path.last());
        assert(r == seq![r[0]] + rest);
    }
}

proof fn lemma_advance_list_complete(
    nodes: Seq<BranchNode>,
    heads: Seq<LocalBranchHead>,
    kids: Seq<u128>,
    i: int,
    pn: Seq<char>,
    po: Seq<char>,
    f: nat,
    j: int,
    path: Seq<u128>,
)
    requires
        advance_list(nodes, heads, kids, i, pn, po, f) is Ok,
        0 <= i <= j < kids.len(),
        is_child_path(nodes, path),
        path[0] == kids[j],
    ensures
        plan_has(advance_list(nodes, heads, kids, i, pn, po, f)->Ok_0, path.last()),
        path.len() <= f,
    decreases f, (kids.len() - i + 1) as nat,
{
    let a = advance_walk(nodes, heads, kids[i], pn, po, f)->Ok_0;
    let b = advance_list(nodes, heads, kids, i + 1, pn, po, f)->Ok_0;
    lemma_plan_has_concat(a, b, path.last());
    if j == i {
        lemma_advance_walk_complete(nodes, heads, kids[i], pn, po, f, path);
    } else {
        lemma_advance_list_complete(nodes, heads, kids, i + 1, pn, po, f, j, path);
    }
}

proof fn lemma_advance_walk_sound(
    nodes: Seq<BranchNode>,
    heads: Seq<LocalBranchHead>,
    x: u128,
    un: Seq<char>,
    uo: Seq<char>,
    f: nat,
)
    requires
        advance_walk(nodes, heads, x, un, uo, f) is Ok,
    ensures
        forall|y: u128| plan_has(advance_walk(nodes, heads, x, un, uo, f)->Ok_0, y) ==> reachable(nodes, x, y),
    decreases f, 0nat,
{
    let r = advance_walk(nodes, heads, x, un, uo, f)->Ok_0;
    let n = load_active(nodes, heads, x)->Ok_0;
    let kids = children_spec(nodes, x);
    lemma_reach_self(nodes, x);
    if kids.len() > 0 {
        let head = ref_oid_spec(heads, n.branch_name@)->Ok_0;
        let rest = advance_list(nodes, heads, kids, 0, n.branch_name@, head, (f - 1) as nat)->Ok_0;
        lemma_advance_list_sound(nodes, heads, kids, 0, n.branch_name@, head, (f - 1) as nat);
        assert forall|y: u128| plan_has(r, y) implies reachable(nodes, x, y) by {
            lemma_plan_has_concat(seq![r[0]], rest, y);
            assert(r == seq![r[0]] + rest);
            if y != x {
                if plan_has(seq![r[0]], y) {
                    let k = choose|k: int| 0 <= k < 1 && (#[trigger] seq![r[0]][k]).node_id == y;
                }
                assert(list_reaches(nodes, kids, 0, y));
                let j = choose|j: int| 0 <= j < kids.len() && reachable(nodes, #[trigger] kids[j], y);
                assert(child_edge(nodes, x, kids[j]));
                lemma_reach_prepend(nodes, x, kids[j], y);
            }
        }
    } else {
        assert forall|y: u128| plan_has(r, y) implies reachable(nodes, x, y) by {
            let k = choose|k: int| 0 <= k < r.len() && (#[trigger] r[k]).node_id == y;
        }
    }
}

proof fn lemma_advance_list_sound(
    nodes: Seq<BranchNode>,
    heads: Seq<LocalBranchHead>,
    kids: Seq<u128>,
    i: int,
    pn: Seq<char>,
    po: Seq<char>,
    f: nat,
)
    requires
        advance_list(nodes, heads, kids, i, pn, po, f) is Ok,
        0 <= i,
    ensures
        forall|y: u128| plan_has(advance_list(nodes, heads, kids, i, pn, po, f)->Ok_0, y) ==> list_reaches(
            nodes,
            kids,
            i,
            y,
        ),
    decreases f, (kids.len() - i + 1) as nat,
{
    let r = advance_list(nodes, heads, kids, i, pn, po, f)->Ok_0;
    if i < kids.len() {
        let a = advance_walk(nodes, heads, kids[i], pn, po, f)->Ok_0;
        let b = advance_list(nodes, heads, kids, i + 1, pn, po, f)->Ok_0;
        lemma_advance_walk_sound(nodes, heads, kids[i], pn, po, f);
        lemma_advance_list_sound(nodes, heads, kids, i + 1, pn, po, f);
        assert forall|y: u128| plan_has(r, y) implies list_reaches(nodes, kids, i, y) by {
            lemma_plan_has_concat(a, b, y);
            if plan_has(a, y) {
                assert(reachable(nodes, kids[i], y));
            } else {
                assert(list_reaches(nodes, kids, i + 1, y));
                let j = choose|j: int| i + 1 <= j < kids.len() && reachable(nodes, #[trigger] kids[j], y);
                assert(reachable(nodes, kids[j], y));
            }
        }
    } else {
        assert forall|y: u128| plan_has(r, y) implies list_reaches(nodes, kids, i, y) by {
            let k = choose|k: int| 0 <= k < r.len() && (#[trigger] r[k]).node_id == y;
        }
    }
}

/// The rebases planned after a branch advanced are exactly one group per branch below it:
/// a branch is planned if and only if it is not the advanced branch itself and can be reached
/// from it by walking from parents to children.
pub proof fn lemma_advance_plan_covers_descendants(
    nodes: Seq<BranchNode>,
    heads: Seq<LocalBranchHead>,
    id: u128,
    name: Seq<char>,
    old_head: Seq<char>,
)
    requires
        advance_list(nodes, heads, children_spec(nodes, id), 0, name, old_head, nodes.len()) is Ok,
    ensures
        forall|x: u128|
            plan_has(advance_list(nodes, heads, children_spec(nodes, id), 0, name, old_head, nodes.len())->Ok_0, x)
                <==> (x != id && reachable(nodes, id, x)),
{
    let kids = children_spec(nodes, id);
    let f = nodes.len();
    let r = advance_list(nodes, heads, kids, 0, name, old_head, f)->Ok_0;
    lemma_advance_list_sound(nodes, heads, kids, 0, name, old_head, f);
    assert forall|x: u128| plan_has(r, x) <==> (x != id && reachable(nodes, id, x)) by {
        if plan_has(r, x) {
            assert(list_reaches(nodes, kids, 0, x));
            let j = choose|j: int| 0 <= j < kids.len() && reachable(nodes, #[trigger] kids[j], x);
            assert(kids.contains(kids[j]));
            assert(child_edge(nodes, id, kids[j]));
            lemma_reach_prepend(nodes, id, kids[j], x);
            if x == id {
                let q = choose|q: Seq<u128>| is_child_path(nodes, q) && q[0] == kids[j] && q.last() == id;
                let p = lemma_loop_path(nodes, q, kids[j], id, f + 1);
                lemma_advance_list_complete(nodes, heads, kids, 0, name, old_head, f, j, p);
            }
        }
        if x != id && reachable(nodes, id, x) {
            let p = choose|p: Seq<u128>| is_child_path(nodes, p) && p[0] == id && p.last() == x;
            lemma_path_tail(nodes, p);
            let j = lemma_kid_index(nodes, id, p[1]);
            lemma_advance_list_complete(nodes, heads, kids, 0, name, old_head, f, j, p.skip(1));
        }
    }
}

// The rebases after a branch was moved off its upstream.

proof fn lemma_restack_walk_complete(
    nodes: Seq<BranchNode>,
    heads: Seq<LocalBranchHead>,
    x: u128,
    un: Seq<char>,
    base: (Seq<char>, Option<Seq<char>>),
    np: Option<ParentRef>,
    f: nat,
    path: Seq<u128>,
)
    requires
        restack_walk(nodes, heads, x, un, base, np, f) is Ok,
        is_child_path(nodes, path),
        path[0] == x,
    ensures
        plan_has(restack_walk(nodes, heads, x, un, base, np, f)->Ok_0, path.last()),
        path.len() <= f,
    decreases f, 0nat,
{
    let r = restack_walk(nodes, heads, x, un, base, np, f)->Ok_0;
    let n = load_active(nodes, heads, x)->Ok_0;
    let kids = children_spec(nodes, x);
    let rest = restack_list(nodes, heads, kids, 0, n.branch_name@, (f - 1) as nat)->Ok_0;
    assert(r == seq![r[0]] + rest);
    assert(r[0].node_id == x);
    if path.len() == 1 {
        assert(path.last() == x);
    } else {
        lemma_path_tail(nodes, path);
        let j = lemma_kid_index(nodes, x, path[1]);
        lemma_restack_list_complete(nodes, heads, kids, 0, n.branch_name@, (f - 1) as nat, j, path.skip(1));
        lemma_plan_has_concat(seq![r[0]], rest, path.last());
    }
}

proof fn lemma_restack_list_complete(
    nodes: Seq<BranchNode>,
    heads: Seq<LocalBranchHead>,
    kids: Seq<u128>,
    i: int,
    pn: Seq<char>,
    f: nat,
    j: int,
    path: Seq<u128>,
)
    requires
        restack_list(nodes, heads, kids, i, pn, f) is Ok,
        0 <= i <= j < kids.len(),
        is_child_path(nodes, path),
        path[0] == kids[j],
    ensures
        plan_has(restack_list(nodes, heads, kids, i, pn, f)->Ok_0, path.last()),
        path.len() <= f,
    decreases f, (kids.len() - i + 1) as nat,
{
    let a = restack_walk(nodes, heads, kids[i], pn, (pn, None), None, f)->Ok_0;
    let b = restack_list(nodes, heads, kids, i + 1, pn, f)->Ok_0;
    lemma_plan_has_concat(a, b, path.last());
    if j == i {
        lemma_restack_walk_complete(nodes, heads, kids[i], pn, (pn, None), None, f, path);
    } else {
        lemma_restack_list_complete(nodes, heads, kids, i + 1, pn, f, j, path);
    }
}

proof fn lemma_restack_walk_sound(
    nodes: Seq<BranchNode>,
    heads: Seq<LocalBranchHead>,
    x: u128,
    un: Seq<char>,
    base: (Seq<char>, Option<Seq<char>>),
    np: Option<ParentRef>,
    f: nat,
)
    requires
        restack_walk(nodes, heads, x, un, base, np, f) is Ok,
    ensures
        forall|y: u128| plan_has(restack_walk(nodes, heads, x, un, base, np, f)->Ok_0, y) ==> reachable(nodes, x, y),
    decreases f, 0nat,
{
    let r = restack_walk(nodes, heads, x, un, base, np, f)->Ok_0;
    let n = load_active(nodes, heads, x)->Ok_0;
    let kids = children_spec(nodes, x);
    let rest = restack_list(nodes, heads, kids, 0, n.branch_name@, (f - 1) as nat)->Ok_0;
    assert(r == seq![r[0]] + rest);
    lemma_reach_self(nodes, x);
    lemma_restack_list_sound(nodes, heads, kids, 0, n.branch_name@, (f - 1) as nat);
    assert forall|y: u128| plan_has(r, y) implies reachable(nodes, x, y) by {
        lemma_plan_has_concat(seq![r[0]], rest, y);
        if y != x {
            if plan_has(seq![r[0]], y) {
                let k = choose|k: int| 0 <= k < 1 && (#[trigger] seq![r[0]][k]).node_id == y;
            }
            assert(list_reaches(nodes, kids, 0, y));
            let j = choose|j: int| 0 <= j < kids.len() && reachable(nodes, #[trigger] kids[j], y);
            assert(kids.contains(kids[j]));
            lemma_reach_prepend(nodes, x, kids[j], y);
        }
    }
}

proof fn lemma_restack_list_sound(
    nodes: Seq<BranchNode>,
    heads: Seq<LocalBranchHead>,
    kids: Seq<u128>,
    i: int,
    pn: Seq<char>,
    f: nat,
)
    requires
        restack_list(nodes, heads, kids, i, pn, f) is Ok,
        0 <= i,
    ensures
        forall|y: u128| plan_has(restack_list(nodes, heads, kids, i, pn, f)->Ok_0, y) ==> list_reaches(nodes, kids, i, y),
    decreases f, (kids.len() - i + 1) as nat,
{
    let r = restack_list(nodes, heads, kids, i, pn, f)->Ok_0;
    if i < kids.len() {
        let a = restack_walk(nodes, heads, kids[i], pn, (pn, None), None, f)->Ok_0;
        let b = restack_list(nodes, heads, kids, i + 1, pn, f)->Ok_0;
        lemma_restack_walk_sound(nodes, heads, kids[i], pn, (pn, None), None, f);
        lemma_restack_list_sound(nodes, heads, kids, i + 1, pn, f);
        assert forall|y: u128| plan_has(r, y) implies list_reaches(nodes, kids, i, y) by {
            lemma_plan_has_concat(a, b, y);
            if plan_has(a, y) {
                assert(reachable(nodes, kids[i], y));
            } else {
                assert(list_reaches(nodes, kids, i + 1, y));
                let j = choose|j: int| i + 1 <= j < kids.len() && reachable(nodes, #[trigger] kids[j], y);
                assert(reachable(nodes, kids[j], y));
            }
        }
    } else {
        assert forall|y: u128| plan_has(r, y) implies list_reaches(nodes, kids, i, y) by {
            let k = choose|k: int| 0 <= k < r.len() && (#[trigger] r[k]).node_id == y;
        }
    }
}

/// Whether some planned rebase moves the branch `c` onto `base` with the parent change `np`.
pub open spec fn plan_moves(r: Seq<ActionView>, c: u128, base: (Seq<char>, Option<Seq<char>>), np: ParentRef) -> bool {
    exists|k: int| 0 <= k < r.len() && (#[trigger] r[k]).node_id == c && r[k].new_base == base && r[k].new_parent == Some(np)
}

proof fn lemma_detach_facts(
    nodes: Seq<BranchNode>,
    heads: Seq<LocalBranchHead>,
    kids: Seq<u128>,
    i: int,
    dn: Seq<char>,
    base: (Seq<char>, Option<Seq<char>>),
    np: ParentRef,
)
    requires
        detach_list(nodes, heads, kids, i, dn, base, np) is Ok,
        0 <= i,
    ensures
        forall|j: int| i <= j < kids.len() ==> plan_moves(detach_list(nodes, heads, kids, i, dn, base, np)->Ok_0, #[trigger] kids[j], base, np),
        forall|y: u128| plan_has(detach_list(nodes, heads, kids, i, dn, base, np)->Ok_0, y) ==> list_reaches(nodes, kids, i, y),
        forall|j: int, path: Seq<u128>| i <= j < kids.len() && is_child_path(nodes, path) && path[0] == #[trigger] kids[j]
            && #[trigger] path.len() > 0 ==> plan_has(detach_list(nodes, heads, kids, i, dn, base, np)->Ok_0, path.last())
            && path.len() <= nodes.len(),
    decreases kids.len() - i,
{
    let r = detach_list(nodes, heads, kids, i, dn, base, np)->Ok_0;
    if i < kids.len() {
        let f = nodes.len();
        let a = restack_walk(nodes, heads, kids[i], dn, base, Some(np), f)->Ok_0;
        let b = detach_list(nodes, heads, kids, i + 1, dn, base, np)->Ok_0;
        assert(r == a + b);
        lemma_detach_facts(nodes, heads, kids, i + 1, dn, base, np);
        lemma_restack_walk_sound(nodes, heads, kids[i], dn, base, Some(np), f);
        assert forall|j: int| i <= j < kids.len() implies plan_moves(r, #[trigger] kids[j], base, np) by {
            if j == i {
                assert(r[0] == a[0]);
                assert(r[0].node_id == kids[i]);
            } else {
                let k = choose|k: int| 0 <= k < b.len() && (#[trigger] b[k]).node_id == kids[j] && b[k].new_base == base
                    && b[k].new_parent == Some(np);
                assert(r[k + a.len()] == b[k]);
            }
        }
        assert forall|y: u128| plan_has(r, y) implies list_reaches(nodes, kids, i, y) by {
            lemma_plan_has_concat(a, b, y);
            if plan_has(a, y) {
                assert(reachable(nodes, kids[i], y));
            } else {
                assert(list_reaches(nodes, kids, i + 1, y));
                let j = choose|j: int| i + 1 <= j < kids.len() && reachable(nodes, #[trigger] kids[j], y);
                assert(reachable(nodes, kids[j], y));
            }
        }
        assert forall|j: int, path: Seq<u128>| i <= j < kids.len() && is_child_path(nodes, path) && path[0]
            == #[trigger] kids[j] && #[trigger] path.len() > 0 implies plan_has(r, path.last()) && path.len() <= nodes.len() by {
            lemma_plan_has_concat(a, b, path.last());
            if j == i {
                lemma_restack_walk_complete(nodes, heads, kids[i], dn, base, Some(np), f, path);
            }
        }
    } else {
        assert forall|y: u128| plan_has(r, y) implies list_reaches(nodes, kids, i, y) by {
            let k = choose|k: int| 0 <= k < r.len() && (#[trigger] r[k]).node_id == y;
        }
    }
}

/// The rebases planned after a branch left its place: every active child of it goes onto the
/// given base with the given parent change, and a branch is planned if and only if it is not
/// the detached branch itself and can be reached from it by walking from parents to children.
pub proof fn lemma_detach_plan_moves_children(
    nodes: Seq<BranchNode>,
    heads: Seq<LocalBranchHead>,
    id: u128,
    name: Seq<char>,
    base: (Seq<char>, Option<Seq<char>>),
    np: ParentRef,
)
    requires
        detach_list(nodes, heads, children_spec(nodes, id), 0, name, base, np) is Ok,
    ensures
        forall|c: u128| child_edge(nodes, id, c) ==> plan_moves(
            detach_list(nodes, heads, children_spec(nodes, id), 0, name, base, np)->Ok_0,
            c,
            base,
            np,
        ),
        forall|x: u128|
            plan_has(detach_list(nodes, heads, children_spec(nodes, id), 0, name, base, np)->Ok_0, x) <==> (x != id
                && reachable(nodes, id, x)),
{
    let kids = children_spec(nodes, id);
    let f = nodes.len();
    let r = detach_list(nodes, heads, kids, 0, name, base, np)->Ok_0;
    lemma_detach_facts(nodes, heads, kids, 0, name, base, np);
    assert forall|c: u128| child_edge(nodes, id, c) implies plan_moves(r, c, base, np) by {
        let j = lemma_kid_index(nodes, id, c);
        assert(plan_moves(r, kids[j], base, np));
    }
    assert forall|x: u128| plan_has(r, x) <==> (x != id && reachable(nodes, id, x)) by {
        if plan_has(r, x) {
            assert(list_reaches(nodes, kids, 0, x));
            let j = choose|j: int| 0 <= j < kids.len() && reachable(nodes, #[trigger] kids[j], x);
            assert(kids.contains(kids[j]));
            lemma_reach_prepend(nodes, id, kids[j], x);
            if x == id {
                let q = choose|q: Seq<u128>| is_child_path(nodes, q) && q[0] == kids[j] && q.last() == id;
                let p = lemma_loop_path(nodes, q, kids[j], id, f + 1);
                assert(p.len() > 0);
            }
        }
        if x != id && reachable(nodes, id, x) {
            let p = choose|p: Seq<u128>| is_child_path(nodes, p) && p[0] == id && p.last() == x;
            lemma_path_tail(nodes, p);
            let j = lemma_kid_index(nodes, id, p[1]);
            let t = p.skip(1);
            assert(t.len() > 0);
            assert(t[0] == kids[j]);
        }
    }
}

// Where the planned rebases start from.

/// Whether a planned rebase goes onto the upstream it names.
pub open spec fn onto_upstream(a: ActionView) -> bool {
    a.new_base == (a.old_upstream_branch_name, None::<Seq<char>>)
}

/// Whether a planned rebase starts from `po` on the upstream `pn`, or else from the current
/// head of the upstream it names.
pub open spec fn follows(heads: Seq<LocalBranchHead>, a: ActionView, pn: Seq<char>, po: Seq<char>) -> bool {
    (a.old_upstream_branch_name == pn && a.old_upstream_oid == po) || from_upstream_head(heads, a)
}

proof fn lemma_advance_walk_follows(
    nodes: Seq<BranchNode>,
    heads: Seq<LocalBranchHead>,
    x: u128,
    un: Seq<char>,
    uo: Seq<char>,
    f: nat,
)
    requires
        advance_walk(nodes, heads, x, un, uo, f) is Ok,
    ensures
        forall|k: int| 0 <= k < advance_walk(nodes, heads, x, un, uo, f)->Ok_0.len() ==> {
            let a = #[trigger] advance_walk(nodes, heads, x, un, uo, f)->Ok_0[k];
            a.new_parent is None && follows(heads, a, un, uo) && onto_upstream(a)
        },
    decreases f, 0nat,
{
    let r = advance_walk(nodes, heads, x, un, uo, f)->Ok_0;
    let n = load_active(nodes, heads, x)->Ok_0;
    let kids = children_spec(nodes, x);
    if kids.len() > 0 {
        let head = ref_oid_spec(heads, n.branch_name@)->Ok_0;
        let rest = advance_list(nodes, heads, kids, 0, n.branch_name@, head, (f - 1) as nat)->Ok_0;
        lemma_advance_list_follows(nodes, heads, kids, 0, n.branch_name@, head, (f - 1) as nat);
        assert(r == seq![r[0]] + rest);
        assert forall|k: int| 0 <= k < r.len() implies (#[trigger] r[k]).new_parent is None && follows(heads, r[k], un, uo)
            && onto_upstream(r[k]) by {
            if k > 0 {
                assert(r[k] == rest[k - 1]);
            }
        }
    }
}

proof fn lemma_advance_list_follows(
    nodes: Seq<BranchNode>,
    heads: Seq<LocalBranchHead>,
    kids: Seq<u128>,
    i: int,
    pn: Seq<char>,
    po: Seq<char>,
    f: nat,
)
    requires
        advance_list(nodes, heads, kids, i, pn, po, f) is Ok,
    ensures
        forall|k: int| 0 <= k < advance_list(nodes, heads, kids, i, pn, po, f)->Ok_0.len() ==> {
            let a = #[trigger] advance_list(nodes, heads, kids, i, pn, po, f)->Ok_0[k];
            a.new_parent is None && follows(heads, a, pn, po) && onto_upstream(a)
        },
    decreases f, (kids.len() - i + 1) as nat,
{
    let r = advance_list(nodes, heads, kids, i, pn, po, f)->Ok_0;
    if 0 <= i < kids.len() {
        let a = advance_walk(nodes, heads, kids[i], pn, po, f)->Ok_0;
        let b = advance_list(nodes, heads, kids, i + 1, pn, po, f)->Ok_0;
        lemma_advance_walk_follows(nodes, heads, kids[i], pn, po, f);
        lemma_advance_list_follows(nodes, heads, kids, i + 1, pn, po, f);
        assert(r == a + b);
        assert forall|k: int| 0 <= k < r.len() implies (#[trigger] r[k]).new_parent is None && follows(heads, r[k], pn, po)
            && onto_upstream(r[k]) by {
            if k < a.len() {
                assert(r[k] == a[k]);
            } else {
                assert(r[k] == b[k - a.len()]);
            }
        }
    }
}

/// The rebases planned after a branch advanced change no parent, each goes onto the upstream it
/// names, and each starts from where that upstream was: the children of the advanced branch
/// from its old head, every other branch from the current head of its parent.
pub proof fn lemma_advance_plan_starts(
    nodes: Seq<BranchNode>,
    heads: Seq<LocalBranchHead>,
    id: u128,
    name: Seq<char>,
    old_head: Seq<char>,
)
    requires
        advance_list(nodes, heads, children_spec(nodes, id), 0, name, old_head, nodes.len()) is Ok,
    ensures
        forall|k: int|
            0 <= k < advance_list(nodes, heads, children_spec(nodes, id), 0, name, old_head, nodes.len())->Ok_0.len()
                ==> {
                let a = #[trigger] advance_list(nodes, heads, children_spec(nodes, id), 0, name, old_head, nodes.len())->Ok_0[k];
                a.new_parent is None && follows(heads, a, name, old_head) && onto_upstream(a)
            },
{
    lemma_advance_list_follows(nodes, heads, children_spec(nodes, id), 0, name, old_head, nodes.len());
}

// The rebases after a branch was deleted.

proof fn lemma_deleted_facts(
    nodes: Seq<BranchNode>,
    heads: Seq<LocalBranchHead>,
    mbs: Seq<MergeBaseFact>,
    kids: Seq<u128>,
    i: int,
    dn: Seq<char>,
    base: (Seq<char>, Option<Seq<char>>),
    np: ParentRef,
    ov: Option<Seq<char>>,
)
    requires
        deleted_list(nodes, heads, mbs, kids, i, dn, base, np, ov) is Ok,
        0 <= i,
    ensures
        forall|k: int| 0 <= k < deleted_list(nodes, heads, mbs, kids, i, dn, base, np, ov)->Ok_0.len() ==> {
            let a = #[trigger] deleted_list(nodes, heads, mbs, kids, i, dn, base, np, ov)->Ok_0[k];
            match a.new_parent {
                None => from_upstream_head(heads, a) && onto_upstream(a),
                Some(p) => p == np && a.new_base == base && a.old_upstream_branch_name == dn,
            }
        },
        forall|j: int| i <= j < kids.len() ==> plan_moves(
            deleted_list(nodes, heads, mbs, kids, i, dn, base, np, ov)->Ok_0,
            #[trigger] kids[j],
            base,
            np,
        ),
        forall|y: u128| plan_has(deleted_list(nodes, heads, mbs, kids, i, dn, base, np, ov)->Ok_0, y) ==> list_reaches(
            nodes,
            kids,
            i,
            y,
        ),
        forall|j: int, path: Seq<u128>| i <= j < kids.len() && is_child_path(nodes, path) && path[0] == #[trigger] kids[j]
            && #[trigger] path.len() > 0 ==> plan_has(deleted_list(nodes, heads, mbs, kids, i, dn, base, np, ov)->Ok_0, path.last())
            && path.len() <= nodes.len() + 1,
    decreases kids.len() - i,
{
    let r = deleted_list(nodes, heads, mbs, kids, i, dn, base, np, ov)->Ok_0;
    if i < kids.len() {
        let f = nodes.len();
        let child = load_active(nodes, heads, kids[i])->Ok_0;
        let head = ref_oid_spec(heads, child.branch_name@)->Ok_0;
        let gk = children_spec(nodes, kids[i]);
        let sub = advance_list(nodes, heads, gk, 0, child.branch_name@, head, f)->Ok_0;
        let rest = deleted_list(nodes, heads, mbs, kids, i + 1, dn, base, np, ov)->Ok_0;
        let a0 = r[0];
        assert(r == seq![a0] + sub + rest);
        assert(a0.node_id == kids[i] && a0.new_base == base && a0.new_parent == Some(np) && a0.old_upstream_branch_name == dn);
        lemma_deleted_facts(nodes, heads, mbs, kids, i + 1, dn, base, np, ov);
        lemma_advance_list_follows(nodes, heads, gk, 0, child.branch_name@, head, f);
        lemma_advance_list_sound(nodes, heads, gk, 0, child.branch_name@, head, f);
        assert forall|k: int| 0 <= k < r.len() implies {
            let a = #[trigger] r[k];
            match a.new_parent {
                None => from_upstream_head(heads, a) && onto_upstream(a),
                Some(p) => p == np && a.new_base == base && a.old_upstream_branch_name == dn,
            }
        } by {
            if 1 <= k < 1 + sub.len() {
                assert(r[k] == sub[k - 1]);
            } else if k >= 1 + sub.len() {
                assert(r[k] == rest[k - 1 - sub.len()]);
            }
        }
        assert forall|j: int| i <= j < kids.len() implies plan_moves(r, #[trigger] kids[j], base, np) by {
            if j == i {
                assert(r[0] == a0);
            } else {
                let k = choose|k: int| 0 <= k < rest.len() && (#[trigger] rest[k]).node_id == kids[j]
                    && rest[k].new_base == base && rest[k].new_parent == Some(np);
                assert(r[k + 1 + sub.len()] == rest[k]);
            }
        }
        lemma_reach_self(nodes, kids[i]);
        assert forall|y: u128| plan_has(r, y) implies list_reaches(nodes, kids, i, y) by {
            lemma_plan_has_concat(seq![a0] + sub, rest, y);
            lemma_plan_has_concat(seq![a0], sub, y);
            if plan_has(seq![a0], y) {
                let k = choose|k: int| 0 <= k < 1 && (#[trigger] seq![a0][k]).node_id == y;
                assert(reachable(nodes, kids[i], y));
            } else if plan_has(sub, y) {
                assert(list_reaches(nodes, gk, 0, y));
                let g = choose|g: int| 0 <= g < gk.len() && reachable(nodes, #[trigger] gk[g], y);
                assert(gk.contains(gk[g]));
                lemma_reach_prepend(nodes, kids[i], gk[g], y);
                assert(reachable(nodes, kids[i], y));
            } else {
                assert(list_reaches(nodes, kids, i + 1, y));
                let j = choose|j: int| i + 1 <= j < kids.len() && reachable(nodes, #[trigger] kids[j], y);
                assert(reachable(nodes, kids[j], y));
            }
        }
        assert forall|j: int, path: Seq<u128>| i <= j < kids.len() && is_child_path(nodes, path) && path[0]
            == #[trigger] kids[j] && #[trigger] path.len() > 0 implies plan_has(r, path.last()) && path.len() <= nodes.len()
            + 1 by {
            lemma_plan_has_concat(seq![a0] + sub, rest, path.last());
            lemma_plan_has_concat(seq![a0], sub, path.last());
            if j == i {
                if path.len() == 1 {
                    assert(seq![a0][0].node_id == path.last());
                } else {
                    lemma_path_tail(nodes, path);
                    let g = lemma_kid_index(nodes, kids[i], path[1]);
                    lemma_advance_list_complete(nodes, heads, gk, 0, child.branch_name@, head, f, g, path.skip(1));
                }
            }
        }
    } else {
        assert forall|y: u128| plan_has(r, y) implies list_reaches(nodes, kids, i, y) by {
            let k = choose|k: int| 0 <= k < r.len() && (#[trigger] r[k]).node_id == y;
        }
    }
}

/// The rebases planned after a branch was deleted: every active child of it goes onto the given
/// base with the given parent change, every other planned branch keeps its parent and starts
/// from the current head of the upstream it names (a grandchild from its parent's head before
/// the plan), and a branch is planned if and only if it is not the deleted branch itself and
/// can be reached from it by walking from parents to children.
pub proof fn lemma_deleted_plan(
    nodes: Seq<BranchNode>,
    heads: Seq<LocalBranchHead>,
    mbs: Seq<MergeBaseFact>,
    id: u128,
    name: Seq<char>,
    base: (Seq<char>, Option<Seq<char>>),
    np: ParentRef,
    ov: Option<Seq<char>>,
)
    requires
        deleted_list(nodes, heads, mbs, children_spec(nodes, id), 0, name, base, np, ov) is Ok,
    ensures
        forall|k: int| 0 <= k < deleted_list(nodes, heads, mbs, children_spec(nodes, id), 0, name, base, np, ov)->Ok_0.len() ==> {
            let a = #[trigger] deleted_list(nodes, heads, mbs, children_spec(nodes, id), 0, name, base, np, ov)->Ok_0[k];
            match a.new_parent {
                None => head_lookup(heads, a.old_upstream_branch_name) == Some(a.old_upstream_oid) && onto_upstream(a),
                Some(p) => p == np && a.new_base == base && a.old_upstream_branch_name == name,
            }
        },
        forall|c: u128| child_edge(nodes, id, c) ==> plan_moves(
            deleted_list(nodes, heads, mbs, children_spec(nodes, id), 0, name, base, np, ov)->Ok_0,
            c,
            base,
            np,
        ),
        forall|x: u128|
            plan_has(deleted_list(nodes, heads, mbs, children_spec(nodes, id), 0, name, base, np, ov)->Ok_0, x) <==> (x
                != id && reachable(nodes, id, x)),
{
    let kids = children_spec(nodes, id);
    let f = nodes.len();
    let r = deleted_list(nodes, heads, mbs, kids, 0, name, base, np, ov)->Ok_0;
    lemma_deleted_facts(nodes, heads, mbs, kids, 0, name, base, np, ov);
    assert forall|c: u128| child_edge(nodes, id, c) implies plan_moves(r, c, base, np) by {
        let j = lemma_kid_index(nodes, id, c);
        assert(plan_moves(r, kids[j], base, np));
    }
    assert forall|x: u128| plan_has(r, x) <==> (x != id && reachable(nodes, id, x)) by {
        if plan_has(r, x) {
            assert(list_reaches(nodes, kids, 0, x));
            let j = choose|j: int| 0 <= j < kids.len() && reachable(nodes, #[trigger] kids[j], x);
            assert(kids.contains(kids[j]));
            lemma_reach_prepend(nodes, id, kids[j], x);
            if x == id {
                let q = choose|q: Seq<u128>| is_child_path(nodes, q) && q[0] == kids[j] && q.last() == id;
                let p = lemma_loop_path(nodes, q, kids[j], id, f + 2);
                assert(p.len() > 0);
            }
        }
        if x != id && reachable(nodes, id, x) {
            let p = choose|p: Seq<u128>| is_child_path(nodes, p) && p[0] == id && p.last() == x;
            lemma_path_tail(nodes, p);
            let j = lemma_kid_index(nodes, id, p[1]);
            let t = p.skip(1);
            assert(t.len() > 0);
            assert(t[0] == kids[j]);
        }
    }
}

proof fn lemma_restack_walk_heads(
    nodes: Seq<BranchNode>,
    heads: Seq<LocalBranchHead>,
    x: u128,
    un: Seq<char>,
    base: (Seq<char>, Option<Seq<char>>),
    np: Option<ParentRef>,
    f: nat,
)
    requires
        restack_walk(nodes, heads, x, un, base, np, f) is Ok,
    ensures
        ({
            let r = restack_walk(nodes, heads, x, un, base, np, f)->Ok_0;
            &&& r.len() >= 1
            &&& r[0].node_id == x
            &&& r[0].old_upstream_branch_name == un
            &&& r[0].new_base == base
            &&& r[0].new_parent == np
        }),
        forall|k: int| 0 <= k < restack_walk(nodes, heads, x, un, base, np, f)->Ok_0.len() ==> {
            let a = #[trigger] restack_walk(nodes, heads, x, un, base, np, f)->Ok_0[k];
            from_upstream_head(heads, a) && (k > 0 ==> a.new_parent is None && onto_upstream(a))
        },
    decreases f, 0nat,
{
    let r = restack_walk(nodes, heads, x, un, base, np, f)->Ok_0;
    let n = load_active(nodes, heads, x)->Ok_0;
    let kids = children_spec(nodes, x);
    let rest = restack_list(nodes, heads, kids, 0, n.branch_name@, (f - 1) as nat)->Ok_0;
    assert(r == seq![r[0]] + rest);
    lemma_restack_list_heads(nodes, heads, kids, 0, n.branch_name@, (f - 1) as nat);
    assert forall|k: int| 0 <= k < r.len() implies from_upstream_head(heads, #[trigger] r[k]) && (k > 0 ==> r[k].new_parent is None
        && onto_upstream(r[k])) by {
        if k > 0 {
            assert(r[k] == rest[k - 1]);
        }
    }
}

proof fn lemma_restack_list_heads(
    nodes: Seq<BranchNode>,
    heads: Seq<LocalBranchHead>,
    kids: Seq<u128>,
    i: int,
    pn: Seq<char>,
    f: nat,
)
    requires
        restack_list(nodes, heads, kids, i, pn, f) is Ok,
    ensures
        forall|k: int| 0 <= k < restack_list(nodes, heads, kids, i, pn, f)->Ok_0.len() ==> {
            let a = #[trigger] restack_list(nodes, heads, kids, i, pn, f)->Ok_0[k];
            from_upstream_head(heads, a) && a.new_parent is None && onto_upstream(a)
        },
    decreases f, (kids.len() - i + 1) as nat,
{
    let r = restack_list(nodes, heads, kids, i, pn, f)->Ok_0;
    if 0 <= i < kids.len() {
        let a = restack_walk(nodes, heads, kids[i], pn, (pn, None), None, f)->Ok_0;
        let b = restack_list(nodes, heads, kids, i + 1, pn, f)->Ok_0;
        lemma_restack_walk_heads(nodes, heads, kids[i], pn, (pn, None), None, f);
        lemma_restack_list_heads(nodes, heads, kids, i + 1, pn, f);
        assert(r == a + b);
        assert forall|k: int| 0 <= k < r.len() implies from_upstream_head(heads, #[trigger] r[k]) && r[k].new_parent is None
            && onto_upstream(r[k]) by {
            if k < a.len() {
                assert(r[k] == a[k]);
            } else {
                assert(r[k] == b[k - a.len()]);
            }
        }
    }
}

proof fn lemma_detach_heads(
    nodes: Seq<BranchNode>,
    heads: Seq<LocalBranchHead>,
    kids: Seq<u128>,
    i: int,
    dn: Seq<char>,
    base: (Seq<char>, Option<Seq<char>>),
    np: ParentRef,
)
    requires
        detach_list(nodes, heads, kids, i, dn, base, np) is Ok,
    ensures
        forall|k: int| 0 <= k < detach_list(nodes, heads, kids, i, dn, base, np)->Ok_0.len() ==> {
            let a = #[trigger] detach_list(nodes, heads, kids, i, dn, base, np)->Ok_0[k];
            &&& from_upstream_head(heads, a)
            &&& match a.new_parent {
                None => onto_upstream(a),
                Some(p) => p == np && a.new_base == base && a.old_upstream_branch_name == dn,
            }
        },
    decreases kids.len() - i,
{
    let r = detach_list(nodes, heads, kids, i, dn, base, np)->Ok_0;
    if 0 <= i < kids.len() {
        let a = restack_walk(nodes, heads, kids[i], dn, base, Some(np), nodes.len())->Ok_0;
        let b = detach_list(nodes, heads, kids, i + 1, dn, base, np)->Ok_0;
        lemma_restack_walk_heads(nodes, heads, kids[i], dn, base, Some(np), nodes.len());
        lemma_detach_heads(nodes, heads, kids, i + 1, dn, base, np);
        assert(r == a + b);
        assert forall|k: int| 0 <= k < r.len() implies {
            let x = #[trigger] r[k];
            &&& from_upstream_head(heads, x)
            &&& match x.new_parent {
                None => onto_upstream(x),
                Some(p) => p == np && x.new_base == base && x.old_upstream_branch_name == dn,
            }
        } by {
            if k < a.len() {
                assert(r[k] == a[k]);
            } else {
                assert(r[k] == b[k - a.len()]);
            }
        }
    }
}

/// Every rebase planned after a branch left its place starts from the current head of the
/// upstream it names: the children of that branch from its head, every other branch from its
/// parent's; the children go onto the given base with the given parent change, and every
/// other branch stays on its parent.
pub proof fn lemma_detach_plan_starts(
    nodes: Seq<BranchNode>,
    heads: Seq<LocalBranchHead>,
    id: u128,
    name: Seq<char>,
    base: (Seq<char>, Option<Seq<char>>),
    np: ParentRef,
)
    requires
        detach_list(nodes, heads, children_spec(nodes, id), 0, name, base, np) is Ok,
    ensures
        forall|k: int| 0 <= k < detach_list(nodes, heads, children_spec(nodes, id), 0, name, base, np)->Ok_0.len() ==> {
            let a = #[trigger] detach_list(nodes, heads, children_spec(nodes, id), 0, name, base, np)->Ok_0[k];
            &&& head_lookup(heads, a.old_upstream_branch_name) == Some(a.old_upstream_oid)
            &&& match a.new_parent {
                None => onto_upstream(a),
                Some(p) => p == np && a.new_base == base && a.old_upstream_branch_name == name,
            }
        },
{
    lemma_detach_heads(nodes, heads, children_spec(nodes, id), 0, name, base, np);
}

/// The rebases planned after a branch moved to a new parent: the branch itself first, from
/// its merge base with its current parent onto the new base with the parent change; then
/// every branch below it, each onto its parent without parent change, the children from the
/// branch's current head and the others from their parents' current heads; and a branch is
/// planned if and only if it can be reached from the moved branch.
pub proof fn lemma_reparent_plan(
    nodes: Seq<BranchNode>,
    heads: Seq<LocalBranchHead>,
    mbs: Seq<MergeBaseFact>,
    id: u128,
    name: Seq<char>,
    current_parent: Seq<char>,
    base: (Seq<char>, Option<Seq<char>>),
    np: ParentRef,
)
    requires
        reparent_plan(nodes, heads, mbs, id, name, current_parent, base, np) is Ok,
    ensures
        ({
            let r = reparent_plan(nodes, heads, mbs, id, name, current_parent, base, np)->Ok_0;
            &&& r.len() >= 1
            &&& r[0].node_id == id
            &&& r[0].branch_name == name
            &&& r[0].old_upstream_branch_name == current_parent
            &&& merge_base_spec(mbs, current_parent, name) == Ok::<Seq<char>, PlanError>(r[0].old_upstream_oid)
            &&& r[0].new_base == base
            &&& r[0].new_parent == Some(np)
            &&& forall|k: int| 1 <= k < r.len() ==> (#[trigger] r[k]).new_parent is None && onto_upstream(r[k])
                && from_upstream_head(heads, r[k])
            &&& forall|x: u128| plan_has(r, x) <==> reachable(nodes, id, x)
        }),
{
    let r = reparent_plan(nodes, heads, mbs, id, name, current_parent, base, np)->Ok_0;
    let head = ref_oid_spec(heads, name)->Ok_0;
    let kids = children_spec(nodes, id);
    let rest = advance_list(nodes, heads, kids, 0, name, head, nodes.len())->Ok_0;
    assert(r == seq![r[0]] + rest);
    lemma_advance_list_follows(nodes, heads, kids, 0, name, head, nodes.len());
    lemma_advance_plan_covers_descendants(nodes, heads, id, name, head);
    assert forall|k: int| 1 <= k < r.len() implies (#[trigger] r[k]).new_parent is None && onto_upstream(r[k])
        && from_upstream_head(heads, r[k]) by {
        assert(r[k] == rest[k - 1]);
    }
    lemma_reach_self(nodes, id);
    assert forall|x: u128| plan_has(r, x) <==> reachable(nodes, id, x) by {
        lemma_plan_has_concat(seq![r[0]], rest, x);
        if plan_has(seq![r[0]], x) {
            let k = choose|k: int| 0 <= k < 1 && (#[trigger] seq![r[0]][k]).node_id == x;
        }
        if x == id {
            assert(seq![r[0]][0].node_id == x);
        }
    }
}

} // verus!
