use vstd::prelude::*;

use crate::error::{message_with_name, quoted, DigError, ErrorKind};
use crate::gh::{details_view, PullRequestDetails, PullRequestSummary};
use crate::git::BranchPushTarget;
use crate::layout::{label_forest, label_tree, lemma_label_forest_push, render_tree, tree_text, LabelTree, LabeledTree};
use crate::text::{decimal_digits, push_decimal, push_str, to_owned_string};
use crate::model::{node_named, parent_name_spec, BranchNode, DigState};
use crate::tree_view::TreeNode;
use std::collections::HashMap;

verus! {

broadcast use vstd::std_specs::hash::group_hash_axioms;

/// What the pull request command creates a pull request with.
#[derive(Debug, Clone, Default, PartialEq, Eq)]
pub struct PrOptions {
    pub title: Option<String>,
    pub body: Option<String>,
    pub draft: bool,
    pub push_if_needed: bool,
}

/// How the pull request command tracked the pull request of a branch.
#[derive(Debug, Clone, Copy, PartialEq, Eq, Structural)]
pub enum PrOutcomeKind {
    AlreadyTracked,
    Created,
    Adopted,
}

/// An open tracked pull request, with those of the branches stacked on its branch.
#[derive(Debug, PartialEq, Eq)]
pub struct TrackedPullRequestListNode {
    pub pull_request: PullRequestDetails,
    pub children: Vec<TrackedPullRequestListNode>,
}

/// The open tracked pull requests, as a tree under the trunk.
#[derive(Debug, PartialEq, Eq)]
pub struct TrackedPullRequestListView {
    pub root_label: Option<String>,
    pub roots: Vec<TrackedPullRequestListNode>,
}

/// What the pull request command does for a branch without a tracked pull request.
#[derive(Debug, Clone, PartialEq, Eq)]
pub enum PrTrackingAction {
    Create,
    Adopt(PullRequestSummary),
}

/// The message when the open pull request of a branch goes into another base.
pub open spec fn mismatched_base_message(branch: Seq<char>, number: u64, actual: Seq<char>, expected: Seq<char>) -> Seq<char> {
    "branch "@ + quoted(branch) + " already has open pull request #"@ + decimal_digits(number as nat)
        + " into "@ + quoted(actual) + ", but dig expects base "@ + quoted(expected)
}

/// The message when a branch has several open pull requests.
pub open spec fn multiple_open_message(branch: Seq<char>) -> Seq<char> {
    "branch "@ + quoted(branch)
        + " has multiple open pull requests on GitHub; dig pr cannot choose automatically"@
}

/// What to do for a branch without a tracked pull request, given its open pull requests:
/// create one when there is none, adopt the only one when it goes into the expected base, and
/// refuse otherwise.
pub fn resolve_tracking_action(
    branch_name: &str,
    base_branch_name: &str,
    open_pull_requests: &[PullRequestSummary],
) -> (r: Result<PrTrackingAction, DigError>)
    ensures
        open_pull_requests@.len() == 0 ==> r == Ok::<PrTrackingAction, DigError>(PrTrackingAction::Create),
        open_pull_requests@.len() == 1 && open_pull_requests@[0].base_ref_name@ == base_branch_name@
            ==> r == Ok::<PrTrackingAction, DigError>(PrTrackingAction::Adopt(open_pull_requests@[0])),
        open_pull_requests@.len() == 1 && open_pull_requests@[0].base_ref_name@ != base_branch_name@
            ==> (r matches Err(e) && e.kind == ErrorKind::Other && e.message@ == mismatched_base_message(
            branch_name@,
            open_pull_requests@[0].number,
            open_pull_requests@[0].base_ref_name@,
            base_branch_name@,
        )),
        open_pull_requests@.len() > 1 ==> (r matches Err(e) && e.kind == ErrorKind::Other && e.message@
            == multiple_open_message(branch_name@)),
{
    if open_pull_requests.len() == 0 {
        return Ok(PrTrackingAction::Create);
    }
    if open_pull_requests.len() == 1 {
        let pr = &open_pull_requests[0];
        if crate::text::str_equal(pr.base_ref_name.as_str(), base_branch_name) {
            return Ok(
                PrTrackingAction::Adopt(
                    PullRequestSummary {
                        number: pr.number,
                        base_ref_name: pr.base_ref_name.clone(),
                        url: pr.url.clone(),
                    },
                ),
            );
        }
        let mut message = message_with_name("branch ", branch_name, " already has open pull request #");
        push_decimal(&mut message, pr.number);
        push_str(&mut message, " into ");
        crate::error::push_quoted(&mut message, pr.base_ref_name.as_str());
        push_str(&mut message, ", but dig expects base ");
        crate::error::push_quoted(&mut message, base_branch_name);
        return Err(DigError::other(message));
    }
    Err(
        DigError::other(
            message_with_name(
                "branch ",
                branch_name,
                " has multiple open pull requests on GitHub; dig pr cannot choose automatically",
            ),
        ),
    )
}

/// The refusal of the pull request command on a detached HEAD.
pub open spec fn detached_head_message() -> Seq<char> {
    "dig pr requires a named branch; detached HEAD is not supported"@
}

/// The branch checked out and the base its pull request goes into, or nothing when the branch
/// already tracks a pull request; refused on a detached HEAD, an untracked branch, or a branch
/// whose tracked parent is gone.
pub open spec fn create_target_spec(
    nodes: Seq<BranchNode>,
    trunk: Seq<char>,
    current: Option<Seq<char>>,
) -> Result<Option<(Seq<char>, Seq<char>)>, (ErrorKind, Seq<char>)> {
    match current {
        None => Err((ErrorKind::Other, detached_head_message())),
        Some(b) => match node_named(nodes, b) {
            None => Err((ErrorKind::Other, "branch "@ + quoted(b) + " is not tracked by dig"@)),
            Some(n) => if n.pull_request is Some {
                Ok(None)
            } else {
                match parent_name_spec(nodes, n.parent, trunk) {
                    None => Err((ErrorKind::Other, "tracked parent branch for "@ + quoted(b) + " was not found"@)),
                    Some(p) => Ok(Some((b, p))),
                }
            },
        },
    }
}

/// The branch and base a new pull request would use, before GitHub is asked about it.
pub fn pull_request_create_target(state: &DigState, trunk_branch: &str, current_branch: Option<&str>) -> (r: Result<
    Option<(String, String)>,
    DigError,
>)
    ensures
        match r {
            Ok(Some((b, p))) => create_target_spec(state.nodes@, trunk_branch@, crate::branch::opt_str_view(current_branch))
                == Ok::<Option<(Seq<char>, Seq<char>)>, (ErrorKind, Seq<char>)>(Some((b@, p@))),
            Ok(None) => create_target_spec(state.nodes@, trunk_branch@, crate::branch::opt_str_view(current_branch))
                == Ok::<Option<(Seq<char>, Seq<char>)>, (ErrorKind, Seq<char>)>(None),
            Err(e) => create_target_spec(state.nodes@, trunk_branch@, crate::branch::opt_str_view(current_branch))
                == Err::<Option<(Seq<char>, Seq<char>)>, (ErrorKind, Seq<char>)>((e.kind, e.message@)),
        },
{
    let branch = match current_branch {
        Some(b) => b,
        None => {
            return Err(DigError::other(to_owned_string("dig pr requires a named branch; detached HEAD is not supported")));
        },
    };
    let node = match state.find_branch_by_name(branch) {
        Some(n) => n,
        None => {
            return Err(DigError::other(message_with_name("branch ", branch, " is not tracked by dig")));
        },
    };
    if node.pull_request.is_some() {
        return Ok(None);
    }
    match crate::graph::BranchGraph::new(state).parent_branch_name(node, trunk_branch) {
        Some(p) => Ok(Some((to_owned_string(branch), p))),
        None => Err(DigError::other(message_with_name("tracked parent branch for ", branch, " was not found"))),
    }
}

/// An open tracked pull request and those under it, as plain values.
pub struct PrListView {
    pub pull_request: (u64, Seq<char>, Seq<char>),
    pub children: Seq<PrListView>,
}

/// The plain value of a node of the pull request list.
pub open spec fn pr_node_view(n: TrackedPullRequestListNode) -> PrListView
    decreases n, 0int,
{
    PrListView {
        pull_request: details_view(n.pull_request),
        children: pr_forest_view_upto(n.children@, n.children@.len() as int),
    }
}

/// The plain values of the first `k` nodes of `ns`.
pub open spec fn pr_forest_view_upto(ns: Seq<TrackedPullRequestListNode>, k: int) -> Seq<PrListView>
    decreases ns, k,
{
    if k <= 0 || k > ns.len() {
        Seq::<PrListView>::empty()
    } else {
        pr_forest_view_upto(ns, k - 1).push(pr_node_view(ns[k - 1]))
    }
}

/// The plain values of nodes of the pull request list.
pub open spec fn pr_forest_view(ns: Seq<TrackedPullRequestListNode>) -> Seq<PrListView> {
    pr_forest_view_upto(ns, ns.len() as int)
}

proof fn lemma_pr_forest_view_len(ns: Seq<TrackedPullRequestListNode>, k: int)
    requires
        0 <= k <= ns.len(),
    ensures
        pr_forest_view_upto(ns, k).len() == k,
    decreases k,
{
    if k > 0 {
        lemma_pr_forest_view_len(ns, k - 1);
    }
}

proof fn lemma_pr_forest_view_push(ns: Seq<TrackedPullRequestListNode>, n: TrackedPullRequestListNode)
    ensures
        pr_forest_view(ns.push(n)) == pr_forest_view(ns).push(pr_node_view(n)),
{
    assert(pr_forest_view_upto(ns.push(n), ns.len() as int) == pr_forest_view_upto(ns, ns.len() as int)) by {
        lemma_pr_forest_view_prefix(ns.push(n), ns, ns.len() as int);
    }
}

proof fn lemma_pr_forest_view_prefix(a: Seq<TrackedPullRequestListNode>, b: Seq<TrackedPullRequestListNode>, k: int)
    requires
        0 <= k <= a.len(),
        k <= b.len(),
        forall|i: int| 0 <= i < k ==> a[i] == b[i],
    ensures
        pr_forest_view_upto(a, k) == pr_forest_view_upto(b, k),
    decreases k,
{
    if k > 0 {
        lemma_pr_forest_view_prefix(a, b, k - 1);
    }
}

proof fn lemma_pr_forest_view_concat(a: Seq<TrackedPullRequestListNode>, b: Seq<TrackedPullRequestListNode>)
    ensures
        pr_forest_view(a + b) == pr_forest_view(a) + pr_forest_view(b),
    decreases b.len(),
{
    if b.len() == 0 {
        assert(a + b =~= a);
        assert(pr_forest_view(b) =~= Seq::<PrListView>::empty());
    } else {
        let c = b.drop_last();
        lemma_pr_forest_view_concat(a, c);
        assert(a + b =~= (a + c).push(b.last()));
        assert(b =~= c.push(b.last()));
        lemma_pr_forest_view_push(a + c, b.last());
        lemma_pr_forest_view_push(c, b.last());
    }
}

/// The list nodes of a tree node: its own, over the list nodes of its children, when its pull
/// request is open; else just those of its children.
pub open spec fn pr_nodes_of(t: TreeNode, m: Map<u64, PullRequestDetails>) -> Seq<PrListView>
    decreases t, 0int,
{
    let children = pr_nodes_forest_upto(t.children@, t.children@.len() as int, m);
    match t.pull_request_number {
        Some(n) => if m.contains_key(n) {
            seq![PrListView { pull_request: details_view(m[n]), children }]
        } else {
            children
        },
        None => children,
    }
}

/// The list nodes of the first `k` tree nodes of `ts`, in order.
pub open spec fn pr_nodes_forest_upto(ts: Seq<TreeNode>, k: int, m: Map<u64, PullRequestDetails>) -> Seq<PrListView>
    decreases ts, k,
{
    if k <= 0 || k > ts.len() {
        Seq::<PrListView>::empty()
    } else {
        pr_nodes_forest_upto(ts, k - 1, m) + pr_nodes_of(ts[k - 1], m)
    }
}

/// The list nodes of a tree node, given the open pull requests by number.
pub fn build_pull_request_list_nodes(
    node: &TreeNode,
    pull_request_lookup: &HashMap<u64, PullRequestDetails>,
) -> (r: Vec<TrackedPullRequestListNode>)
    ensures
        pr_forest_view(r@) == pr_nodes_of(*node, pull_request_lookup@),
    decreases *node,
{
    let mut children: Vec<TrackedPullRequestListNode> = Vec::new();
    proof {
        assert(pr_forest_view(children@) =~= Seq::<PrListView>::empty());
    }
    let mut i: usize = 0;
    while i < node.children.len()
        invariant
            i <= node.children.len(),
            pr_forest_view(children@) == pr_nodes_forest_upto(node.children@, i as int, pull_request_lookup@),
        decreases node.children.len() - i,
    {
        proof {
            assert(decreases_to!(*node => node.children));
            assert(decreases_to!(node.children => node.children@));
            assert(decreases_to!(node.children@ => node.children@[i as int]));
        }
        let mut sub = build_pull_request_list_nodes(&node.children[i], pull_request_lookup);
        let ghost a = children@;
        let ghost b = sub@;
        children.append(&mut sub);
        proof {
            lemma_pr_forest_view_concat(a, b);
        }
        i = i + 1;
    }
    match node.pull_request_number {
        Some(number) => match pull_request_lookup.get(&number) {
            Some(pull_request) => {
                let mut v: Vec<TrackedPullRequestListNode> = Vec::new();
                let n = TrackedPullRequestListNode { pull_request: pull_request.duplicate(), children };
                proof {
                    lemma_pr_forest_view_push(v@, n);
                    assert(pr_forest_view(v@) =~= Seq::<PrListView>::empty());
                }
                v.push(n);
                v
            },
            None => children,
        },
        None => children,
    }
}

/// The pull requests of list nodes, in depth-first order.
pub open spec fn pr_order(ns: Seq<PrListView>) -> Seq<(u64, Seq<char>, Seq<char>)>
    decreases ns,
{
    if ns.len() == 0 {
        Seq::empty()
    } else {
        pr_order(ns.drop_last()) + seq![ns.last().pull_request] + pr_order(ns.last().children)
    }
}

/// The open pull requests of a tree node and of everything under it, in depth-first order.
pub open spec fn open_prs_of(t: TreeNode, m: Map<u64, PullRequestDetails>) -> Seq<(u64, Seq<char>, Seq<char>)>
    decreases t, 0int,
{
    let own = match t.pull_request_number {
        Some(n) => if m.contains_key(n) {
            seq![details_view(m[n])]
        } else {
            Seq::empty()
        },
        None => Seq::empty(),
    };
    own + open_prs_upto(t.children@, t.children@.len() as int, m)
}

/// The open pull requests of the first `k` tree nodes of `ts`, in depth-first order.
pub open spec fn open_prs_upto(ts: Seq<TreeNode>, k: int, m: Map<u64, PullRequestDetails>) -> Seq<
    (u64, Seq<char>, Seq<char>),
>
    decreases ts, k,
{
    if k <= 0 || k > ts.len() {
        Seq::empty()
    } else {
        open_prs_upto(ts, k - 1, m) + open_prs_of(ts[k - 1], m)
    }
}

proof fn lemma_pr_order_concat(a: Seq<PrListView>, b: Seq<PrListView>)
    ensures
        pr_order(a + b) == pr_order(a) + pr_order(b),
    decreases b.len(),
{
    if b.len() == 0 {
        assert(a + b =~= a);
        assert(pr_order(b) =~= Seq::<(u64, Seq<char>, Seq<char>)>::empty());
    } else {
        let c = b.drop_last();
        lemma_pr_order_concat(a, c);
        assert((a + b).drop_last() =~= a + c);
        assert((a + b).last() == b.last());
        assert(pr_order(a + b) =~= pr_order(a) + pr_order(b));
    }
}

proof fn lemma_pr_nodes_forest_order(ts: Seq<TreeNode>, k: int, m: Map<u64, PullRequestDetails>)
    ensures
        pr_order(pr_nodes_forest_upto(ts, k, m)) == open_prs_upto(ts, k, m),
    decreases ts, k,
{
    if k <= 0 || k > ts.len() {
        assert(pr_order(Seq::<PrListView>::empty()) =~= Seq::<(u64, Seq<char>, Seq<char>)>::empty());
    } else {
        lemma_pr_nodes_forest_order(ts, k - 1, m);
        lemma_pr_nodes_order(ts[k - 1], m);
        lemma_pr_order_concat(pr_nodes_forest_upto(ts, k - 1, m), pr_nodes_of(ts[k - 1], m));
    }
}

proof fn lemma_pr_nodes_order(t: TreeNode, m: Map<u64, PullRequestDetails>)
    ensures
        pr_order(pr_nodes_of(t, m)) == open_prs_of(t, m),
    decreases t, 0int,
{
    let k = t.children@.len() as int;
    lemma_pr_nodes_forest_order(t.children@, k, m);
    let children = pr_nodes_forest_upto(t.children@, k, m);
    match t.pull_request_number {
        Some(n) => if m.contains_key(n) {
            let x = PrListView { pull_request: details_view(m[n]), children };
            let s = seq![x];
            assert(s.drop_last() =~= Seq::<PrListView>::empty());
            assert(pr_order(Seq::<PrListView>::empty()) =~= Seq::<(u64, Seq<char>, Seq<char>)>::empty());
            assert(pr_order(s) =~= open_prs_of(t, m));
        } else {
            assert(open_prs_of(t, m) =~= open_prs_upto(t.children@, k, m));
        },
        None => {
            assert(open_prs_of(t, m) =~= open_prs_upto(t.children@, k, m));
        },
    }
}

/// The pull request list of a tree node lists every open pull request of the tree, and no
/// other, each once, in depth-first order; when the node's own pull request is open it heads
/// the list alone, and the pull requests below it are those of its subtree.
pub proof fn lemma_pr_list_lists_open_prs(t: TreeNode, m: Map<u64, PullRequestDetails>)
    ensures
        pr_order(pr_nodes_of(t, m)) == open_prs_of(t, m),
        match t.pull_request_number {
            Some(n) => m.contains_key(n) ==> {
                &&& pr_nodes_of(t, m).len() == 1
                &&& pr_nodes_of(t, m)[0].pull_request == details_view(m[n])
                &&& pr_order(pr_nodes_of(t, m)[0].children) == open_prs_upto(t.children@, t.children@.len() as int, m)
            },
            None => true,
        },
{
    lemma_pr_nodes_order(t, m);
    lemma_pr_nodes_forest_order(t.children@, t.children@.len() as int, m);
}

/// Appends the pull requests of list nodes, in depth-first order.
pub fn collect_pull_requests_in_order(
    nodes: &[TrackedPullRequestListNode],
    ordered_pull_requests: &mut Vec<PullRequestDetails>,
)
    ensures
        final(ordered_pull_requests)@.map_values(|d: PullRequestDetails| details_view(d))
            == old(ordered_pull_requests)@.map_values(|d: PullRequestDetails| details_view(d)) + pr_order(
            pr_forest_view(nodes@),
        ),
    decreases nodes@,
{
    let ghost start = ordered_pull_requests@.map_values(|d: PullRequestDetails| details_view(d));
    let mut i: usize = 0;
    while i < nodes.len()
        invariant
            i <= nodes.len(),
            ordered_pull_requests@.map_values(|d: PullRequestDetails| details_view(d)) == start + pr_order(
                pr_forest_view(nodes@.take(i as int)),
            ),
        decreases nodes.len() - i,
    {
        let node = &nodes[i];
        let ghost before = ordered_pull_requests@.map_values(|d: PullRequestDetails| details_view(d));
        ordered_pull_requests.push(node.pull_request.duplicate());
        proof {
            assert(ordered_pull_requests@.map_values(|d: PullRequestDetails| details_view(d)) =~= before.push(
                details_view(node.pull_request),
            ));
            assert(decreases_to!(nodes@ => nodes@[i as int]));
            assert(decreases_to!(nodes@[i as int] => nodes@[i as int].children));
            assert(decreases_to!(nodes@[i as int].children => nodes@[i as int].children@));
        }
        collect_pull_requests_in_order(node.children.as_slice(), ordered_pull_requests);
        proof {
            assert(nodes@.take(i as int + 1) =~= nodes@.take(i as int).push(nodes@[i as int]));
            lemma_pr_forest_view_push(nodes@.take(i as int), nodes@[i as int]);
            let f = pr_forest_view(nodes@.take(i as int + 1));
            assert(f.drop_last() =~= pr_forest_view(nodes@.take(i as int)));
            assert(f.last() == pr_node_view(nodes@[i as int]));
            assert(pr_node_view(nodes@[i as int]).children == pr_forest_view(node.children@));
            assert(ordered_pull_requests@.map_values(|d: PullRequestDetails| details_view(d)) =~= start + pr_order(f));
        }
        i = i + 1;
    }
    proof {
        assert(nodes@.take(nodes@.len() as int) =~= nodes@);
    }
}

/// The label of a pull request in the list: `#number: title - url`.
pub open spec fn pr_label(d: (u64, Seq<char>, Seq<char>)) -> Seq<char> {
    "#"@ + decimal_digits(d.0 as nat) + ": "@ + d.1 + " - "@ + d.2
}

/// A list node with its label, as plain values.
pub open spec fn pr_label_tree(n: PrListView) -> LabelTree
    decreases n, 0int,
{
    LabelTree { label: pr_label(n.pull_request), children: pr_labels_upto(n.children, n.children.len() as int) }
}

/// The first `k` list nodes of `ns` with their labels.
pub open spec fn pr_labels_upto(ns: Seq<PrListView>, k: int) -> Seq<LabelTree>
    decreases ns, k,
{
    if k <= 0 || k > ns.len() {
        Seq::<LabelTree>::empty()
    } else {
        pr_labels_upto(ns, k - 1).push(pr_label_tree(ns[k - 1]))
    }
}

fn labeled_pr_forest(nodes: &Vec<TrackedPullRequestListNode>) -> (r: Vec<LabeledTree>)
    ensures
        label_forest(r@) == pr_labels_upto(pr_forest_view(nodes@), nodes@.len() as int),
    decreases nodes@,
{
    let mut r: Vec<LabeledTree> = Vec::new();
    let mut i: usize = 0;
    while i < nodes.len()
        invariant
            i <= nodes.len(),
            label_forest(r@) == pr_labels_upto(pr_forest_view(nodes@.take(i as int)), i as int),
        decreases nodes.len() - i,
    {
        let n = &nodes[i];
        proof {
            assert(decreases_to!(nodes@ => nodes@[i as int]));
            assert(decreases_to!(nodes@[i as int] => nodes@[i as int].children));
            assert(decreases_to!(nodes@[i as int].children => nodes@[i as int].children@));
        }
        let mut label = to_owned_string("#");
        push_decimal(&mut label, n.pull_request.number);
        push_str(&mut label, ": ");
        push_str(&mut label, n.pull_request.title.as_str());
        push_str(&mut label, " - ");
        push_str(&mut label, n.pull_request.url.as_str());
        let t = LabeledTree { label, children: labeled_pr_forest(&n.children) };
        proof {
            lemma_label_forest_push(r@, t);
            assert(nodes@.take(i as int + 1) =~= nodes@.take(i as int).push(nodes@[i as int]));
            lemma_pr_forest_view_push(nodes@.take(i as int), nodes@[i as int]);
            let f = pr_forest_view(nodes@.take(i as int + 1));
            lemma_pr_forest_view_len(nodes@.take(i as int), i as int);
            lemma_pr_forest_view_len(n.children@, n.children@.len() as int);
            lemma_pr_labels_prefix(f, pr_forest_view(nodes@.take(i as int)), i as int);
            assert(label_tree(t) == pr_label_tree(pr_node_view(nodes@[i as int])));
        }
        r.push(t);
        i = i + 1;
    }
    proof {
        assert(nodes@.take(nodes@.len() as int) =~= nodes@);
    }
    r
}

proof fn lemma_pr_labels_prefix(a: Seq<PrListView>, b: Seq<PrListView>, k: int)
    requires
        0 <= k <= a.len(),
        k <= b.len(),
        forall|i: int| 0 <= i < k ==> a[i] == b[i],
    ensures
        pr_labels_upto(a, k) == pr_labels_upto(b, k),
    decreases k,
{
    if k > 0 {
        lemma_pr_labels_prefix(a, b, k - 1);
    }
}

/// Draws the list of open tracked pull requests as a tree.
pub fn render_pull_request_list(view: &TrackedPullRequestListView) -> (r: String)
    ensures
        r@ == tree_text(
            match view.root_label {
                Some(l) => Some(l@),
                None => None,
            },
            pr_labels_upto(pr_forest_view(view.roots@), view.roots@.len() as int),
        ),
{
    let roots = labeled_pr_forest(&view.roots);
    render_tree(view.root_label.clone(), &roots)
}

/// The branch checked out, the base its pull request goes into and the pull request it
/// already tracks.
#[derive(Debug, Clone, PartialEq, Eq)]
pub struct PrTarget {
    pub branch_name: String,
    pub base_branch_name: String,
    pub tracked_pull_request: Option<u64>,
}

/// What the pull request command acts on: the branch checked out, its base and the pull
/// request it tracks; refused on a detached HEAD, an untracked branch, or a branch whose
/// tracked parent is gone.
pub open spec fn run_target_spec(nodes: Seq<BranchNode>, trunk: Seq<char>, current: Option<Seq<char>>) -> Result<
    (Seq<char>, Seq<char>, Option<u64>),
    (ErrorKind, Seq<char>),
> {
    match current {
        None => Err((ErrorKind::Other, detached_head_message())),
        Some(b) => match node_named(nodes, b) {
            None => Err((ErrorKind::Other, "branch "@ + quoted(b) + " is not tracked by dig"@)),
            Some(n) => match parent_name_spec(nodes, n.parent, trunk) {
                None => Err((ErrorKind::Other, "tracked parent branch for "@ + quoted(b) + " was not found"@)),
                Some(p) => Ok(
                    (
                        b,
                        p,
                        match n.pull_request {
                            Some(t) => Some(t.number),
                            None => None,
                        },
                    ),
                ),
            },
        },
    }
}

/// The branch, base and tracked pull request the pull request command acts on.
pub fn pull_request_run_target(state: &DigState, trunk_branch: &str, current_branch: Option<&str>) -> (r: Result<
    PrTarget,
    DigError,
>)
    ensures
        match r {
            Ok(t) => run_target_spec(state.nodes@, trunk_branch@, crate::branch::opt_str_view(current_branch))
                == Ok::<(Seq<char>, Seq<char>, Option<u64>), (ErrorKind, Seq<char>)>(
                (t.branch_name@, t.base_branch_name@, t.tracked_pull_request),
            ),
            Err(e) => run_target_spec(state.nodes@, trunk_branch@, crate::branch::opt_str_view(current_branch))
                == Err::<(Seq<char>, Seq<char>, Option<u64>), (ErrorKind, Seq<char>)>((e.kind, e.message@)),
        },
{
    let branch = match current_branch {
        Some(b) => b,
        None => {
            return Err(DigError::other(to_owned_string("dig pr requires a named branch; detached HEAD is not supported")));
        },
    };
    let node = match state.find_branch_by_name(branch) {
        Some(n) => n,
        None => {
            return Err(DigError::other(message_with_name("branch ", branch, " is not tracked by dig")));
        },
    };
    let base = match crate::graph::BranchGraph::new(state).parent_branch_name(node, trunk_branch) {
        Some(p) => p,
        None => {
            return Err(DigError::other(message_with_name("tracked parent branch for ", branch, " was not found")));
        },
    };
    let tracked_number = match &node.pull_request {
        Some(t) => Some(t.number),
        None => None,
    };
    Ok(PrTarget { branch_name: to_owned_string(branch), base_branch_name: base, tracked_pull_request: tracked_number })
}

/// What the pull request command says it did.
pub open spec fn pr_outcome_text(kind: PrOutcomeKind, branch: Seq<char>, base: Seq<char>, number: u64) -> Seq<char> {
    match kind {
        PrOutcomeKind::AlreadyTracked => "Branch "@ + quoted(branch) + " already tracks pull request #"@
            + decimal_digits(number as nat) + "."@,
        PrOutcomeKind::Created => "Created pull request #"@ + decimal_digits(number as nat) + " for "@ + quoted(
            branch,
        ) + " into "@ + quoted(base) + "."@,
        PrOutcomeKind::Adopted => "Tracking existing pull request #"@ + decimal_digits(number as nat) + " for "@
            + quoted(branch) + " into "@ + quoted(base) + "."@,
    }
}

/// The line the pull request command prints about the pull request it tracks.
pub fn format_pr_outcome(kind: PrOutcomeKind, branch_name: &str, base_branch_name: &str, number: u64) -> (r: String)
    ensures
        r@ == pr_outcome_text(kind, branch_name@, base_branch_name@, number),
{
    match kind {
        PrOutcomeKind::AlreadyTracked => {
            let mut s = message_with_name("Branch ", branch_name, " already tracks pull request #");
            push_decimal(&mut s, number);
            push_str(&mut s, ".");
            s
        },
        PrOutcomeKind::Created => {
            let mut s = to_owned_string("Created pull request #");
            push_decimal(&mut s, number);
            push_str(&mut s, " for ");
            crate::error::push_quoted(&mut s, branch_name);
            push_str(&mut s, " into ");
            crate::error::push_quoted(&mut s, base_branch_name);
            push_str(&mut s, ".");
            s
        },
        PrOutcomeKind::Adopted => {
            let mut s = to_owned_string("Tracking existing pull request #");
            push_decimal(&mut s, number);
            push_str(&mut s, " for ");
            crate::error::push_quoted(&mut s, branch_name);
            push_str(&mut s, " into ");
            crate::error::push_quoted(&mut s, base_branch_name);
            push_str(&mut s, ".");
            s
        },
    }
}

/// The question before pushing a branch that is not on its remote yet.
pub fn push_confirmation_prompt(target: &BranchPushTarget) -> (r: String)
    ensures
        r@ == "Branch "@ + quoted(target.branch_name@) + " is not pushed to "@ + quoted(target.remote_name@)
            + ". Push it and create the pull request? [y/N] "@,
{
    let mut s = message_with_name("Branch ", target.branch_name.as_str(), " is not pushed to ");
    crate::error::push_quoted(&mut s, target.remote_name.as_str());
    push_str(&mut s, ". Push it and create the pull request? [y/N] ");
    s
}

/// What the pull request command says when the push was declined.
pub fn push_declined_message(target: &BranchPushTarget) -> (r: String)
    ensures
        r@ == "Did not create pull request because "@ + quoted(target.branch_name@) + " is not pushed to "@
            + quoted(target.remote_name@) + "."@,
{
    let mut s = message_with_name("Did not create pull request because ", target.branch_name.as_str(), " is not pushed to ");
    crate::error::push_quoted(&mut s, target.remote_name.as_str());
    push_str(&mut s, ".");
    s
}

/// Before creating a pull request: a branch that is not on its remote is pushed first when the
/// options allow it, and refused otherwise. Says whether to push.
pub fn check_push_before_create(options: &PrOptions, push_target: Option<&BranchPushTarget>) -> (r: Result<
    bool,
    DigError,
>)
    ensures
        match push_target {
            None => r == Ok::<bool, DigError>(false),
            Some(t) => if options.push_if_needed {
                r == Ok::<bool, DigError>(true)
            } else {
                r matches Err(e) && e.kind == ErrorKind::Other && e.message@ == "branch "@ + quoted(t.branch_name@)
                    + " is not pushed to "@ + quoted(t.remote_name@)
            },
        },
{
    match push_target {
        None => Ok(false),
        Some(t) => {
            if options.push_if_needed {
                Ok(true)
            } else {
                let mut message = message_with_name("branch ", t.branch_name.as_str(), " is not pushed to ");
                crate::error::push_quoted(&mut message, t.remote_name.as_str());
                Err(DigError::other(message))
            }
        },
    }
}

/// Checks how pushing a branch before creating its pull request went: a failed push is refused
/// with what git printed.
pub fn check_push_outcome(target: &BranchPushTarget, output: &crate::git::GitCommandOutput) -> (r: Result<(), DigError>)
    ensures
        output.success ==> r is Ok,
        !output.success ==> (r matches Err(e) && e.kind == ErrorKind::Other && e.message@ == "git push to "@
            + quoted(target.remote_name@) + " failed for branch "@ + quoted(target.branch_name@) + (if crate::gh::combined_spec(
            output.stdout@,
            output.stderr@,
        ).len() == 0 {
            Seq::<char>::empty()
        } else {
            ": "@ + crate::gh::combined_spec(output.stdout@, output.stderr@)
        })),
{
    if output.success {
        return Ok(());
    }
    let combined = output.combined_output();
    let mut message = message_with_name("git push to ", target.remote_name.as_str(), " failed for branch ");
    crate::error::push_quoted(&mut message, target.branch_name.as_str());
    if combined.as_str().unicode_len() > 0 {
        push_str(&mut message, ": ");
        push_str(&mut message, combined.as_str());
    }
    Err(DigError::other(message))
}

} // verus!
