use vstd::prelude::*;

use crate::error::{DigError, ErrorKind};
use crate::graph::{
    cycle_message, subtree_forest_upto, subtree_view, subtree_walk, trunk_children_spec, BranchGraph,
    BranchTreeNode, SubtreeFailure, SubtreeView,
};
use crate::model::{branch_not_found_message, node_named, BranchNode, DigState};
use crate::restack::PlanError;
use crate::text::{str_equal, to_owned_string};
use crate::tree_view::{TreeLabel, TreeNode, TreeView};

verus! {

/// A node of a tree view as plain values.
pub struct TreeNodeView {
    pub branch_name: Seq<char>,
    pub is_current: bool,
    pub pull_request_number: Option<u64>,
    pub children: Seq<TreeNodeView>,
}

/// The plain value of a node of a tree view.
pub open spec fn tree_node_view(n: TreeNode) -> TreeNodeView
    decreases n, 0int,
{
    TreeNodeView {
        branch_name: n.branch_name@,
        is_current: n.is_current,
        pull_request_number: n.pull_request_number,
        children: tree_forest_upto(n.children@, n.children@.len() as int),
    }
}

/// The plain values of the first `k` nodes of `ns`.
pub open spec fn tree_forest_upto(ns: Seq<TreeNode>, k: int) -> Seq<TreeNodeView>
    decreases ns, k,
{
    if k <= 0 || k > ns.len() {
        Seq::<TreeNodeView>::empty()
    } else {
        tree_forest_upto(ns, k - 1).push(tree_node_view(ns[k - 1]))
    }
}

/// The pull request number a tracked branch carries.
pub open spec fn pr_number_of(nodes: Seq<BranchNode>, name: Seq<char>) -> Option<u64> {
    match node_named(nodes, name) {
        Some(n) => match n.pull_request {
            Some(p) => Some(p.number),
            None => None,
        },
        None => None,
    }
}

/// The tree view node of a branch subtree: each branch marked when it is checked out, with the
/// pull request it tracks.
pub open spec fn node_from_subtree(t: SubtreeView, nodes: Seq<BranchNode>, current: Option<Seq<char>>) -> TreeNodeView
    decreases t, 0int,
{
    TreeNodeView {
        branch_name: t.branch_name,
        is_current: current == Some(t.branch_name),
        pull_request_number: pr_number_of(nodes, t.branch_name),
        children: forest_from_subtrees(t.children, nodes, current, t.children.len() as int),
    }
}

/// The tree view nodes of the first `k` subtrees of `ts`.
pub open spec fn forest_from_subtrees(
    ts: Seq<SubtreeView>,
    nodes: Seq<BranchNode>,
    current: Option<Seq<char>>,
    k: int,
) -> Seq<TreeNodeView>
    decreases ts, k,
{
    if k <= 0 || k > ts.len() {
        Seq::<TreeNodeView>::empty()
    } else {
        forest_from_subtrees(ts, nodes, current, k - 1).push(node_from_subtree(ts[k - 1], nodes, current))
    }
}

proof fn lemma_tree_forest_prefix(a: Seq<TreeNode>, b: Seq<TreeNode>, k: int)
    requires
        0 <= k <= a.len(),
        k <= b.len(),
        forall|i: int| 0 <= i < k ==> a[i] == b[i],
    ensures
        tree_forest_upto(a, k) == tree_forest_upto(b, k),
    decreases k,
{
    if k > 0 {
        lemma_tree_forest_prefix(a, b, k - 1);
    }
}

proof fn lemma_subtree_forest_entry(ts: Seq<BranchTreeNode>, n: int, i: int)
    requires
        0 <= i < n <= ts.len(),
    ensures
        subtree_forest_upto(ts, n)[i] == subtree_view(ts[i]),
        subtree_forest_upto(ts, n).len() == n,
    decreases n,
{
    lemma_subtree_forest_len(ts, n - 1);
    if i < n - 1 {
        lemma_subtree_forest_entry(ts, n - 1, i);
    }
}

proof fn lemma_subtree_forest_len(ts: Seq<BranchTreeNode>, n: int)
    requires
        0 <= n <= ts.len(),
    ensures
        subtree_forest_upto(ts, n).len() == n,
    decreases n,
{
    if n > 0 {
        lemma_subtree_forest_len(ts, n - 1);
    }
}

proof fn lemma_forest_from_len(ts: Seq<SubtreeView>, nodes: Seq<BranchNode>, current: Option<Seq<char>>, k: int)
    requires
        0 <= k <= ts.len(),
    ensures
        forest_from_subtrees(ts, nodes, current, k).len() == k,
    decreases k,
{
    if k > 0 {
        lemma_forest_from_len(ts, nodes, current, k - 1);
    }
}

proof fn lemma_forest_prefix(ts: Seq<SubtreeView>, us: Seq<SubtreeView>, nodes: Seq<BranchNode>, current: Option<Seq<char>>, k: int)
    requires
        0 <= k <= ts.len(),
        k <= us.len(),
        forall|i: int| 0 <= i < k ==> ts[i] == us[i],
    ensures
        forest_from_subtrees(ts, nodes, current, k) == forest_from_subtrees(us, nodes, current, k),
    decreases k,
{
    if k > 0 {
        lemma_forest_prefix(ts, us, nodes, current, k - 1);
    }
}

/// The pull request number a tracked branch carries.
fn pr_number(state: &DigState, name: &str) -> (r: Option<u64>)
    ensures
        r == pr_number_of(state.nodes@, name@),
{
    match state.find_branch_by_name(name) {
        Some(n) => match &n.pull_request {
            Some(p) => Some(p.number),
            None => None,
        },
        None => None,
    }
}

fn is_current_branch(current: Option<&str>, name: &str) -> (r: bool)
    ensures
        r == (crate::branch::opt_str_view(current) == Some(name@)),
{
    match current {
        Some(c) => str_equal(c, name),
        None => false,
    }
}

/// The tree view nodes of branch subtrees.
pub fn tree_nodes(subtrees: &Vec<BranchTreeNode>, state: &DigState, current: Option<&str>) -> (r: Vec<TreeNode>)
    ensures
        tree_forest_upto(r@, r@.len() as int) == forest_from_subtrees(
            subtree_forest_upto(subtrees@, subtrees@.len() as int),
            state.nodes@,
            crate::branch::opt_str_view(current),
            subtrees@.len() as int,
        ),
    decreases subtrees@,
{
    let ghost cur = crate::branch::opt_str_view(current);
    let ghost views = subtree_forest_upto(subtrees@, subtrees@.len() as int);
    proof {
        lemma_subtree_forest_len(subtrees@, subtrees@.len() as int);
    }
    let mut r: Vec<TreeNode> = Vec::new();
    let mut i: usize = 0;
    while i < subtrees.len()
        invariant
            i <= subtrees.len(),
            r@.len() == i,
            views == subtree_forest_upto(subtrees@, subtrees@.len() as int),
            views.len() == subtrees@.len(),
            cur == crate::branch::opt_str_view(current),
            tree_forest_upto(r@, i as int) == forest_from_subtrees(views, state.nodes@, cur, i as int),
        decreases subtrees.len() - i,
    {
        let t = &subtrees[i];
        proof {
            assert(decreases_to!(subtrees@ => subtrees@[i as int]));
            assert(decreases_to!(subtrees@[i as int] => subtrees@[i as int].children));
            assert(decreases_to!(subtrees@[i as int].children => subtrees@[i as int].children@));
        }
        let children = tree_nodes(&t.children, state, current);
        let n = TreeNode {
            branch_name: t.branch_name.clone(),
            is_current: is_current_branch(current, t.branch_name.as_str()),
            pull_request_number: pr_number(state, t.branch_name.as_str()),
            children,
        };
        proof {
            lemma_subtree_forest_entry(subtrees@, subtrees@.len() as int, i as int);
            assert(views[i as int] == subtree_view(subtrees@[i as int]));
            lemma_subtree_forest_len(t.children@, t.children@.len() as int);
            assert(tree_node_view(n) == node_from_subtree(views[i as int], state.nodes@, cur));
            lemma_tree_forest_prefix(r@.push(n), r@, i as int);
        }
        r.push(n);
        i = i + 1;
    }
    r
}

proof fn lemma_tree_forest_len(ns: Seq<TreeNode>, n: int)
    requires
        0 <= n <= ns.len(),
    ensures
        tree_forest_upto(ns, n).len() == n,
    decreases n,
{
    if n > 0 {
        lemma_tree_forest_len(ns, n - 1);
    }
}

proof fn lemma_tree_forest_entry(ns: Seq<TreeNode>, n: int, i: int)
    requires
        0 <= i < n <= ns.len(),
    ensures
        tree_forest_upto(ns, n)[i] == tree_node_view(ns[i]),
    decreases n,
{
    lemma_tree_forest_len(ns, n - 1);
    if i < n - 1 {
        lemma_tree_forest_entry(ns, n - 1, i);
    }
}

/// Whether a node of a tree view, or one below it, is the branch checked out.
pub open spec fn shows_current(t: TreeNodeView) -> bool
    decreases t, 0int,
{
    t.is_current || shows_current_upto(t.children, t.children.len() as int)
}

/// Whether one of the first `k` nodes of `ts`, or one below them, is the branch checked out.
pub open spec fn shows_current_upto(ts: Seq<TreeNodeView>, k: int) -> bool
    decreases ts, k,
{
    if k <= 0 || k > ts.len() {
        false
    } else {
        shows_current_upto(ts, k - 1) || shows_current(ts[k - 1])
    }
}

/// Whether some node of a forest, or one below it, is the branch checked out.
fn forest_shows_current(ns: &Vec<TreeNode>) -> (r: bool)
    ensures
        r == shows_current_upto(tree_forest_upto(ns@, ns@.len() as int), ns@.len() as int),
    decreases ns@,
{
    let ghost views = tree_forest_upto(ns@, ns@.len() as int);
    proof {
        lemma_tree_forest_len(ns@, ns@.len() as int);
    }
    let mut found = false;
    let mut i: usize = 0;
    while i < ns.len()
        invariant
            i <= ns.len(),
            views == tree_forest_upto(ns@, ns@.len() as int),
            views.len() == ns@.len(),
            found == shows_current_upto(views, i as int),
        decreases ns.len() - i,
    {
        let n = &ns[i];
        proof {
            assert(decreases_to!(ns@ => ns@[i as int]));
            assert(decreases_to!(ns@[i as int] => ns@[i as int].children));
            assert(decreases_to!(ns@[i as int].children => ns@[i as int].children@));
            lemma_tree_forest_entry(ns@, ns@.len() as int, i as int);
            lemma_tree_forest_len(n.children@, n.children@.len() as int);
        }
        let below = forest_shows_current(&n.children);
        proof {
            assert(views[i as int] == tree_node_view(*n));
            assert(shows_current(views[i as int]) == (n.is_current || below));
            assert(shows_current_upto(views, i as int + 1) == (shows_current_upto(views, i as int) || shows_current(
                views[i as int],
            )));
        }
        found = found || n.is_current || below;
        i = i + 1;
    }
    found
}

/// How a subtree walk that failed is reported.
pub open spec fn failure_error(nodes: Seq<BranchNode>, f: SubtreeFailure) -> PlanError {
    match f {
        SubtreeFailure::Cycle(id) => (ErrorKind::InvalidData, cycle_message(nodes, id)),
        SubtreeFailure::Missing => (ErrorKind::NotFound, branch_not_found_message()),
    }
}

/// The subtrees of the branches `ids[..k]`, each walked on its own, or the first failed walk.
pub open spec fn subtrees_upto(nodes: Seq<BranchNode>, ids: Seq<u128>, k: int) -> Result<
    Seq<SubtreeView>,
    SubtreeFailure,
>
    decreases k,
{
    if k <= 0 || k > ids.len() {
        Ok(Seq::<SubtreeView>::empty())
    } else {
        match subtrees_upto(nodes, ids, k - 1) {
            Err(f) => Err(f),
            Ok(prev) => match subtree_walk(nodes, ids[k - 1], Seq::<u128>::empty(), nodes.len()) {
                Err(f) => Err(f),
                Ok((t, _)) => Ok(prev.push(t)),
            },
        }
    }
}

proof fn lemma_subtrees_fail_on(nodes: Seq<BranchNode>, ids: Seq<u128>, i: int, k: int, f: SubtreeFailure)
    requires
        0 < i <= k <= ids.len(),
        subtrees_upto(nodes, ids, i) == Err::<Seq<SubtreeView>, SubtreeFailure>(f),
    ensures
        subtrees_upto(nodes, ids, k) == Err::<Seq<SubtreeView>, SubtreeFailure>(f),
    decreases k - i,
{
    if k > i {
        lemma_subtrees_fail_on(nodes, ids, i, k - 1, f);
    }
}

/// The root of a tree view and the subtrees under it: the requested tracked branch and its
/// children, or trunk and the stacks on it.
pub open spec fn view_roots_spec(nodes: Seq<BranchNode>, trunk: Seq<char>, focus: Option<Seq<char>>) -> Result<
    (Seq<char>, Seq<SubtreeView>),
    PlanError,
> {
    let focused = match focus {
        Some(name) => name != trunk,
        None => false,
    };
    if focused {
        let name = focus.unwrap();
        match node_named(nodes, name) {
            None => Err((ErrorKind::Other, "branch "@ + crate::error::quoted(name) + " is not tracked by dig"@)),
            Some(n) => match subtree_walk(nodes, n.id, Seq::<u128>::empty(), nodes.len()) {
                Err(f) => Err(failure_error(nodes, f)),
                Ok((t, _)) => Ok((name, t.children)),
            },
        }
    } else {
        match subtrees_upto(nodes, trunk_children_spec(nodes), trunk_children_spec(nodes).len() as int) {
            Err(f) => Err(failure_error(nodes, f)),
            Ok(ts) => Ok((trunk, ts)),
        }
    }
}

/// Whether `v` shows the root `root` and the subtrees `ts` of the store, the branch checked out
/// marked, and below the tree the checked-out branch when the tree does not show it, marked as
/// orphaned when it is neither trunk nor tracked.
pub open spec fn view_matches(
    v: TreeView,
    nodes: Seq<BranchNode>,
    trunk: Seq<char>,
    current: Option<Seq<char>>,
    root: Seq<char>,
    ts: Seq<SubtreeView>,
) -> bool {
    let roots = forest_from_subtrees(ts, nodes, current, ts.len() as int);
    &&& v.root_label matches Some(l) && l.branch_name@ == root && l.is_current == (current == Some(root))
        && l.pull_request_number == pr_number_of(nodes, root)
    &&& tree_forest_upto(v.roots@, v.roots@.len() as int) == roots
    &&& crate::layout::opt_view(v.current_branch_name) == current
    &&& v.is_current_visible == (current is Some && (current == Some(root) || shows_current_upto(
        roots,
        roots.len() as int,
    )))
    &&& crate::layout::opt_view(v.current_branch_suffix) == match current {
        Some(c) => if c != trunk && node_named(nodes, c) is None {
            Some("(orphaned)"@)
        } else {
            None::<Seq<char>>
        },
        None => None::<Seq<char>>,
    }
}

fn trunk_subtrees(graph: &BranchGraph, state: &DigState) -> (r: Result<Vec<BranchTreeNode>, DigError>)
    requires
        graph.state == state,
    ensures
        match subtrees_upto(
            state.nodes@,
            trunk_children_spec(state.nodes@),
            trunk_children_spec(state.nodes@).len() as int,
        ) {
            Err(f) => r matches Err(e) && (e.kind, e.message@) == failure_error(state.nodes@, f),
            Ok(ts) => r matches Ok(trees) && subtree_forest_upto(trees@, trees@.len() as int) == ts,
        },
{
    let ids = graph.trunk_children_ids();
    let ghost nodes = state.nodes@;
    let mut trees: Vec<BranchTreeNode> = Vec::new();
    let mut i: usize = 0;
    while i < ids.len()
        invariant
            i <= ids.len(),
            graph.state == state,
            nodes == state.nodes@,
            ids@ == trunk_children_spec(nodes),
            trees@.len() == i,
            subtrees_upto(nodes, ids@, i as int) == Ok::<Seq<SubtreeView>, SubtreeFailure>(
                subtree_forest_upto(trees@, i as int),
            ),
        decreases ids.len() - i,
    {
        match graph.subtree(ids[i]) {
            Ok(t) => {
                proof {
                    crate::graph::lemma_subtree_forest_push_pub(trees@, t);
                }
                trees.push(t);
            },
            Err(e) => {
                proof {
                    let f = match subtree_walk(nodes, ids@[i as int], Seq::<u128>::empty(), nodes.len()) {
                        Err(f) => f,
                        Ok(_) => SubtreeFailure::Missing,
                    };
                    assert(subtrees_upto(nodes, ids@, i as int + 1) == Err::<Seq<SubtreeView>, SubtreeFailure>(f));
                    lemma_subtrees_fail_on(nodes, ids@, i as int + 1, ids@.len() as int, f);
                }
                return Err(e);
            },
        }
        i = i + 1;
    }
    Ok(trees)
}

/// The tree view of the store: every stack on trunk, or the stack on one tracked branch, with
/// the branch checked out marked.
pub fn build_tree_view(state: &DigState, trunk_branch: &str, focus: Option<&str>, current: Option<&str>) -> (r: Result<
    TreeView,
    DigError,
>)
    ensures
        match view_roots_spec(state.nodes@, trunk_branch@, crate::branch::opt_str_view(focus)) {
            Err(pe) => r matches Err(e) && (e.kind, e.message@) == pe,
            Ok((root, ts)) => r matches Ok(v) && view_matches(
                v,
                state.nodes@,
                trunk_branch@,
                crate::branch::opt_str_view(current),
                root,
                ts,
            ),
        },
{
    let graph = BranchGraph::new(state);
    let focused = match focus {
        Some(name) => !str_equal(name, trunk_branch),
        None => false,
    };
    let (root, subtrees) = if focused {
        let name = focus.unwrap();
        let node = match state.find_branch_by_name(name) {
            Some(n) => n,
            None => {
                return Err(DigError::other(crate::error::message_with_name("branch ", name, " is not tracked by dig")));
            },
        };
        let tree = match graph.subtree(node.id) {
            Ok(t) => t,
            Err(e) => {
                return Err(e);
            },
        };
        proof {
            lemma_subtree_forest_len(tree.children@, tree.children@.len() as int);
        }
        (to_owned_string(name), tree.children)
    } else {
        let trees = match trunk_subtrees(&graph, state) {
            Ok(t) => t,
            Err(e) => {
                return Err(e);
            },
        };
        proof {
            lemma_subtree_forest_len(trees@, trees@.len() as int);
        }
        (to_owned_string(trunk_branch), trees)
    };
    let roots = tree_nodes(&subtrees, state, current);
    let shows = forest_shows_current(&roots);
    proof {
        let ts = subtree_forest_upto(subtrees@, subtrees@.len() as int);
        lemma_forest_from_len(ts, state.nodes@, crate::branch::opt_str_view(current), subtrees@.len() as int);
        lemma_tree_forest_len(roots@, roots@.len() as int);
        assert(roots@.len() == subtrees@.len());
        assert(ts.len() == subtrees@.len());
    }
    let root_is_current = is_current_branch(current, root.as_str());
    let is_current_visible = match current {
        Some(_) => root_is_current || shows,
        None => false,
    };
    let current_branch_suffix = match current {
        Some(c) => {
            if !str_equal(c, trunk_branch) && state.find_branch_by_name(c).is_none() {
                Some(to_owned_string("(orphaned)"))
            } else {
                None
            }
        },
        None => None,
    };
    let root_label = TreeLabel {
        branch_name: to_owned_string(root.as_str()),
        is_current: root_is_current,
        pull_request_number: pr_number(state, root.as_str()),
    };
    Ok(
        TreeView {
            root_label: Some(root_label),
            roots,
            current_branch_name: match current {
                Some(c) => Some(to_owned_string(c)),
                None => None,
            },
            is_current_visible,
            current_branch_suffix,
        },
    )
}

} // verus!
