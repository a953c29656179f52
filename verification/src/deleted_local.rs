use vstd::prelude::*;

use crate::error::{DigError, ErrorKind};
use crate::graph::{
    children_spec, cycle_message, reachable, subtree_view, subtree_walk, BranchGraph, BranchTreeNode, SubtreeFailure,
    SubtreeView,
};
use crate::model::{
    branch_not_found, branch_not_found_message, id_position, node_named, node_with_id, BranchNode, DigState, ParentRef,
};
use crate::restack::{
    action_views, base_view, finalize_action, cycle_error, deleted_list, find_head, head_lookup, outcome, plan_after_deleted_branch,
    preview_of, previews_for_actions, ActionView, PlanError, RepoFacts, RestackAction, RestackBaseTarget,
    RestackPreview,
};
use crate::graph::depth_of;
use crate::text::to_owned_string;

verus! {

/// One step of reconciling branches deleted locally: the tracked branch to stop tracking, the
/// parent its children move to, the subtree it carries, the rebases of its children and its
/// depth.
#[derive(Debug)]
pub struct DeletedLocalBranchStep {
    pub node_id: u128,
    pub branch_name: String,
    pub new_parent_base: RestackBaseTarget,
    pub new_parent: ParentRef,
    pub tree: BranchTreeNode,
    pub restack_plan: Vec<RestackPreview>,
    pub depth: usize,
}

/// Which tracked branches a reconciliation looks at: all of them, or one and those below it.
#[derive(Debug, Clone, Copy, PartialEq, Eq, Structural)]
pub enum DeletedLocalScope {
    All,
    Subtree { root_node_id: u128 },
}

/// The first entry with the given id, archived or not.
pub open spec fn any_with_id(nodes: Seq<BranchNode>, id: u128) -> Option<BranchNode>
    decreases nodes.len(),
{
    if nodes.len() == 0 {
        None
    } else if nodes[0].id == id {
        Some(nodes[0])
    } else {
        any_with_id(nodes.drop_first(), id)
    }
}

fn find_any_branch_by_id(state: &DigState, node_id: u128) -> (r: Option<&BranchNode>)
    ensures
        match r {
            Some(n) => any_with_id(state.nodes@, node_id) == Some(*n),
            None => any_with_id(state.nodes@, node_id) is None,
        },
{
    let mut i: usize = 0;
    proof {
        assert(state.nodes@.subrange(0, state.nodes@.len() as int) =~= state.nodes@);
    }
    while i < state.nodes.len()
        invariant
            i <= state.nodes.len(),
            any_with_id(state.nodes@.subrange(i as int, state.nodes@.len() as int), node_id) == any_with_id(
                state.nodes@,
                node_id,
            ),
        decreases state.nodes.len() - i,
    {
        proof {
            assert(state.nodes@.subrange(i as int, state.nodes@.len() as int).drop_first() =~= state.nodes@.subrange(
                i + 1,
                state.nodes@.len() as int,
            ));
        }
        if state.nodes[i].id == node_id {
            return Some(&state.nodes[i]);
        }
        i = i + 1;
    }
    None
}

/// The failure when a parent link points at an id the store does not hold.
pub open spec fn parent_missing_error() -> PlanError {
    (ErrorKind::Other, "tracked parent branch was not found"@)
}

/// Where the children of a branch deleted locally go: up its parent chain to the first
/// active parent that still exists locally, or trunk; a link to an unknown id fails, and so
/// does a chain longer than the store, which only a cycle makes.
pub open spec fn replacement_walk(
    nodes: Seq<BranchNode>,
    facts: RepoFacts,
    trunk: Seq<char>,
    parent: ParentRef,
    fuel: nat,
) -> Result<((Seq<char>, Option<Seq<char>>), ParentRef), PlanError>
    decreases fuel,
{
    match parent {
        ParentRef::Trunk => Ok(((trunk, None), ParentRef::Trunk)),
        ParentRef::Branch { node_id } => if fuel == 0 {
            Err(cycle_error())
        } else {
            match any_with_id(nodes, node_id) {
                None => Err(parent_missing_error()),
                Some(p) => if !p.archived && head_lookup(facts.heads@, p.branch_name@) is Some {
                    Ok(((p.branch_name@, None), ParentRef::Branch { node_id: p.id }))
                } else {
                    replacement_walk(nodes, facts, trunk, p.parent, (fuel - 1) as nat)
                },
            }
        },
    }
}

/// The base and parent reference that replace a parent deleted locally.
pub fn resolve_replacement_parent(state: &DigState, trunk_branch: &str, parent: &ParentRef, facts: &RepoFacts) -> (r:
    Result<(RestackBaseTarget, ParentRef), DigError>)
    ensures
        match r {
            Ok((base, p)) => replacement_walk(state.nodes@, *facts, trunk_branch@, *parent, state.nodes@.len())
                == Ok::<((Seq<char>, Option<Seq<char>>), ParentRef), PlanError>((base_view(base), p)),
            Err(e) => replacement_walk(state.nodes@, *facts, trunk_branch@, *parent, state.nodes@.len())
                == Err::<((Seq<char>, Option<Seq<char>>), ParentRef), PlanError>((e.kind, e.message@)),
        },
{
    let mut current = *parent;
    let mut fuel: usize = state.nodes.len();
    loop
        invariant
            replacement_walk(state.nodes@, *facts, trunk_branch@, current, fuel as nat) == replacement_walk(
                state.nodes@,
                *facts,
                trunk_branch@,
                *parent,
                state.nodes@.len(),
            ),
        decreases fuel,
    {
        match current {
            ParentRef::Trunk => {
                return Ok((RestackBaseTarget::local(trunk_branch), ParentRef::Trunk));
            },
            ParentRef::Branch { node_id } => {
                if fuel == 0 {
                    return Err(
                        DigError::new(ErrorKind::InvalidData, to_owned_string("tracked branches form a parent cycle")),
                    );
                }
                match find_any_branch_by_id(state, node_id) {
                    None => {
                        return Err(DigError::other(to_owned_string("tracked parent branch was not found")));
                    },
                    Some(p) => {
                        if !p.archived && find_head(&facts.heads, p.branch_name.as_str()).is_some() {
                            return Ok(
                                (RestackBaseTarget::local(p.branch_name.as_str()), ParentRef::Branch { node_id: p.id }),
                            );
                        }
                        current = p.parent;
                        fuel = fuel - 1;
                    },
                }
            },
        }
    }
}

/// Whether `r` is the step for `node`: its children move to the replacement parent with the
/// planned rebases, and it carries its subtree; a failed lookup, plan or walk is the error.
pub open spec fn step_matches(
    r: Result<DeletedLocalBranchStep, DigError>,
    nodes: Seq<BranchNode>,
    facts: RepoFacts,
    trunk: Seq<char>,
    node: BranchNode,
) -> bool {
    match replacement_walk(nodes, facts, trunk, node.parent, nodes.len()) {
        Err(pe) => r matches Err(e) && (e.kind, e.message@) == pe,
        Ok((base, np)) => match deleted_list(
            nodes,
            facts.heads@,
            facts.merge_bases@,
            children_spec(nodes, node.id),
            0,
            node.branch_name@,
            base,
            np,
            None,
        ) {
            Err(pe) => r matches Err(e) && (e.kind, e.message@) == pe,
            Ok(actions) => match subtree_walk(nodes, node.id, Seq::<u128>::empty(), nodes.len()) {
                Err(SubtreeFailure::Cycle(id)) => r matches Err(e) && e.kind == ErrorKind::InvalidData && e.message@
                    == cycle_message(nodes, id),
                Err(SubtreeFailure::Missing) => r matches Err(e) && e.kind == ErrorKind::NotFound && e.message@
                    == branch_not_found_message(),
                Ok((t, _)) => r matches Ok(s) && step_fields(s, nodes, node, base, np, actions, t),
            },
        },
    }
}

/// Whether a step holds the given node, replacement, rebases and subtree.
pub open spec fn step_fields(
    s: DeletedLocalBranchStep,
    nodes: Seq<BranchNode>,
    node: BranchNode,
    base: (Seq<char>, Option<Seq<char>>),
    np: ParentRef,
    actions: Seq<ActionView>,
    t: SubtreeView,
) -> bool {
    &&& s.node_id == node.id
    &&& s.branch_name@ == node.branch_name@
    &&& base_view(s.new_parent_base) == base
    &&& s.new_parent == np
    &&& subtree_view(s.tree) == t
    &&& s.restack_plan@.len() == actions.len()
    &&& forall|i: int|
        0 <= i < actions.len() ==> (#[trigger] s.restack_plan@[i].branch_name@, s.restack_plan@[i].onto_branch@,
            s.restack_plan@[i].parent_changed) == preview_of(actions[i])
    &&& s.depth == depth_of(nodes, node.id)
}

/// The step that stops tracking the active branch with the given id.
pub fn plan_deleted_local_step(state: &DigState, trunk_branch: &str, node_id: u128, facts: &RepoFacts) -> (r: Result<
    DeletedLocalBranchStep,
    DigError,
>)
    ensures
        match node_with_id(state.nodes@, node_id) {
            None => r matches Err(e) && e.kind == ErrorKind::NotFound && e.message@ == branch_not_found_message(),
            Some(n) => step_matches(r, state.nodes@, *facts, trunk_branch@, n),
        },
{
    let node = match state.find_branch_by_id(node_id) {
        Some(n) => n,
        None => {
            return Err(branch_not_found());
        },
    };
    let graph = BranchGraph::new(state);
    let (base, new_parent) = resolve_replacement_parent(state, trunk_branch, &node.parent, facts)?;
    let actions = plan_after_deleted_branch(state, facts, node.id, node.branch_name.as_str(), &base, &new_parent)?;
    let restack_plan = previews_for_actions(actions.as_slice());
    let tree = graph.subtree(node.id)?;
    let depth = graph.branch_depth(node.id);
    proof {
        assert forall|i: int| 0 <= i < actions@.len() implies #[trigger] action_views(actions@)[i] == actions@[i]@ by {}
    }
    Ok(
        DeletedLocalBranchStep {
            node_id: node.id,
            branch_name: node.branch_name.clone(),
            new_parent_base: base,
            new_parent,
            tree,
            restack_plan,
            depth,
        },
    )
}

/// The refusal when the requested branch is not tracked.
pub open spec fn branch_not_tracked_error(name: Seq<char>) -> PlanError {
    (ErrorKind::NotFound, "tracked branch "@ + crate::error::quoted(name) + " was not found"@)
}

/// The step that stops tracking the active branch with the given name.
pub fn plan_deleted_local_step_for_branch(state: &DigState, trunk_branch: &str, branch_name: &str, facts: &RepoFacts) -> (r:
    Result<DeletedLocalBranchStep, DigError>)
    ensures
        match node_named(state.nodes@, branch_name@) {
            None => r matches Err(e) && (e.kind, e.message@) == branch_not_tracked_error(branch_name@),
            Some(n) => match node_with_id(state.nodes@, n.id) {
                None => r matches Err(e) && e.kind == ErrorKind::NotFound && e.message@ == branch_not_found_message(),
                Some(m) => step_matches(r, state.nodes@, *facts, trunk_branch@, m),
            },
        },
{
    let node = match state.find_branch_by_name(branch_name) {
        Some(n) => n,
        None => {
            return Err(
                DigError::new(
                    ErrorKind::NotFound,
                    crate::error::message_with_name("tracked branch ", branch_name, " was not found"),
                ),
            );
        },
    };
    plan_deleted_local_step(state, trunk_branch, node.id, facts)
}

/// The rebases of a step, planned against the given state.
pub fn restack_actions_for_step(state: &DigState, step: &DeletedLocalBranchStep, facts: &RepoFacts) -> (r: Result<
    Vec<RestackAction>,
    DigError,
>)
    ensures
        outcome(r) == deleted_list(
            state.nodes@,
            facts.heads@,
            facts.merge_bases@,
            children_spec(state.nodes@, step.node_id),
            0,
            step.branch_name@,
            base_view(step.new_parent_base),
            step.new_parent,
            None,
        ),
{
    plan_after_deleted_branch(state, facts, step.node_id, step.branch_name.as_str(), &step.new_parent_base, &step.new_parent)
}

/// The ids of the active entries, in store order.
pub open spec fn active_ids(nodes: Seq<BranchNode>) -> Seq<u128>
    decreases nodes.len(),
{
    if nodes.len() == 0 {
        Seq::empty()
    } else if !nodes.last().archived {
        active_ids(nodes.drop_last()).push(nodes.last().id)
    } else {
        active_ids(nodes.drop_last())
    }
}

/// Whether `ids` are the ids a reconciliation looks at: every active branch in store order;
/// or the root, when it is an active branch, followed by each branch below it once.
pub open spec fn scope_ids(nodes: Seq<BranchNode>, scope: DeletedLocalScope, ids: Seq<u128>) -> bool {
    match scope {
        DeletedLocalScope::All => ids == active_ids(nodes),
        DeletedLocalScope::Subtree { root_node_id } => if node_with_id(nodes, root_node_id) is Some {
            &&& ids.len() > 0
            &&& ids[0] == root_node_id
            &&& ids.drop_first().no_duplicates()
            &&& forall|x: u128|
                ids.drop_first().contains(x) <==> (x != root_node_id && reachable(nodes, root_node_id, x))
        } else {
            ids.len() == 0
        },
    }
}

/// The ids of the branches a reconciliation looks at.
pub fn scoped_node_ids(state: &DigState, scope: DeletedLocalScope) -> (r: Vec<u128>)
    ensures
        scope_ids(state.nodes@, scope, r@),
{
    match scope {
        DeletedLocalScope::All => {
            let mut r: Vec<u128> = Vec::new();
            let mut i: usize = 0;
            while i < state.nodes.len()
                invariant
                    i <= state.nodes.len(),
                    r@ == active_ids(state.nodes@.take(i as int)),
                decreases state.nodes.len() - i,
            {
                proof {
                    assert(state.nodes@.take(i + 1).drop_last() =~= state.nodes@.take(i as int));
                }
                if !state.nodes[i].archived {
                    r.push(state.nodes[i].id);
                }
                i = i + 1;
            }
            proof {
                assert(state.nodes@.take(state.nodes@.len() as int) =~= state.nodes@);
            }
            r
        },
        DeletedLocalScope::Subtree { root_node_id } => {
            let mut r: Vec<u128> = Vec::new();
            if state.find_branch_by_id(root_node_id).is_some() {
                r.push(root_node_id);
                let mut rest = BranchGraph::new(state).active_descendant_ids(root_node_id);
                let ghost d = rest@;
                r.append(&mut rest);
                proof {
                    assert(r@.drop_first() =~= d);
                }
            }
            r
        },
    }
}

/// Whether scoped id `j` is an active branch without a local branch.
pub open spec fn missing_at(nodes: Seq<BranchNode>, facts: RepoFacts, ids: Seq<u128>, j: int) -> bool {
    0 <= j < ids.len() && node_with_id(nodes, ids[j]) is Some && head_lookup(
        facts.heads@,
        node_with_id(nodes, ids[j]).unwrap().branch_name@,
    ) is None
}

/// Whether the branch at scoped id `j` is reconciled before that at `k`: deeper first, then by
/// name.
pub open spec fn handled_before(nodes: Seq<BranchNode>, ids: Seq<u128>, j: int, k: int) -> bool {
    key_before(
        depth_of(nodes, ids[j]),
        node_with_id(nodes, ids[j]).unwrap().branch_name@,
        depth_of(nodes, ids[k]),
        node_with_id(nodes, ids[k]).unwrap().branch_name@,
    )
}

/// The order of reconciliation keys: deeper first, then by name.
pub open spec fn key_before(d1: int, n1: Seq<char>, d2: int, n2: Seq<char>) -> bool {
    d1 > d2 || (d1 == d2 && crate::ordering::name_lt(n1, n2))
}

proof fn lemma_key_order(d1: int, n1: Seq<char>, d2: int, n2: Seq<char>, d3: int, n3: Seq<char>)
    ensures
        !key_before(d1, n1, d1, n1),
        key_before(d1, n1, d2, n2) && key_before(d2, n2, d3, n3) ==> key_before(d1, n1, d3, n3),
        key_before(d1, n1, d2, n2) && !key_before(d3, n3, d2, n2) ==> key_before(d1, n1, d3, n3),
{
    crate::ordering::lemma_name_lt_irreflexive(n1);
    if crate::ordering::name_lt(n1, n2) && crate::ordering::name_lt(n2, n3) {
        crate::ordering::lemma_name_lt_transitive(n1, n2, n3);
    }
    crate::ordering::lemma_name_lt_total(n2, n3);
}

/// Whether scoped id `j` is the branch reconciled next: missing locally, with no missing one
/// before it in the order, and before every missing one listed earlier.
pub open spec fn next_missing(nodes: Seq<BranchNode>, facts: RepoFacts, ids: Seq<u128>, j: int) -> bool {
    &&& missing_at(nodes, facts, ids, j)
    &&& forall|k: int| #[trigger] missing_at(nodes, facts, ids, k) ==> !handled_before(nodes, ids, k, j)
    &&& forall|k: int| 0 <= k < j && #[trigger] missing_at(nodes, facts, ids, k) ==> handled_before(nodes, ids, j, k)
}

/// What the next reconciliation step is, given the store: none when no branch in scope is
/// missing locally, else the step (or its failure) for the branch reconciled next.
pub open spec fn next_step_matches(
    r: Result<Option<DeletedLocalBranchStep>, DigError>,
    nodes: Seq<BranchNode>,
    trunk: Seq<char>,
    scope: DeletedLocalScope,
    facts: RepoFacts,
) -> bool {
    exists|ids: Seq<u128>|
        #![trigger scope_ids(nodes, scope, ids)]
        scope_ids(nodes, scope, ids) && match r {
            Ok(None) => forall|k: int| !#[trigger] missing_at(nodes, facts, ids, k),
            Ok(Some(s)) => exists|j: int|
                next_missing(nodes, facts, ids, j) && step_matches(
                    Ok(s),
                    nodes,
                    facts,
                    trunk,
                    node_with_id(nodes, ids[j]).unwrap(),
                ),
            Err(e) => exists|j: int|
                next_missing(nodes, facts, ids, j) && step_matches(
                    Err(e),
                    nodes,
                    facts,
                    trunk,
                    node_with_id(nodes, ids[j]).unwrap(),
                ),
        }
}

/// The next reconciliation step in the scope: for the deepest branch missing locally, ties
/// broken by name and then by scope order; none when no branch in scope is missing.
pub fn next_deleted_local_step_with_scope(
    state: &DigState,
    trunk_branch: &str,
    scope: DeletedLocalScope,
    facts: &RepoFacts,
) -> (r: Result<Option<DeletedLocalBranchStep>, DigError>)
    ensures
        next_step_matches(r, state.nodes@, trunk_branch@, scope, *facts),
{
    let ids = scoped_node_ids(state, scope);
    let graph = BranchGraph::new(state);
    let ghost nodes = state.nodes@;
    let mut best: Option<usize> = None;
    let mut best_depth: usize = 0;
    let mut best_name = String::new();
    let mut k: usize = 0;
    while k < ids.len()
        invariant
            k <= ids.len(),
            nodes == state.nodes@,
            graph.state == state,
            match best {
                None => forall|m: int| 0 <= m < k ==> !#[trigger] missing_at(nodes, *facts, ids@, m),
                Some(b) => {
                    &&& b < k
                    &&& missing_at(nodes, *facts, ids@, b as int)
                    &&& best_depth == depth_of(nodes, ids@[b as int])
                    &&& best_name@ == node_with_id(nodes, ids@[b as int]).unwrap().branch_name@
                    &&& forall|m: int|
                        0 <= m < k && #[trigger] missing_at(nodes, *facts, ids@, m) ==> !handled_before(
                            nodes,
                            ids@,
                            m,
                            b as int,
                        )
                    &&& forall|m: int|
                        0 <= m < b && #[trigger] missing_at(nodes, *facts, ids@, m) ==> handled_before(
                            nodes,
                            ids@,
                            b as int,
                            m,
                        )
                },
            },
        decreases ids.len() - k,
    {
        if let Some(node) = state.find_branch_by_id(ids[k]) {
            if find_head(&facts.heads, node.branch_name.as_str()).is_none() {
                let depth = graph.branch_depth(ids[k]);
                let replace = match best {
                    None => true,
                    Some(_) => depth > best_depth || (depth == best_depth && crate::ordering::name_less(
                        node.branch_name.as_str(),
                        best_name.as_str(),
                    )),
                };
                proof {
                    assert(missing_at(nodes, *facts, ids@, k as int));
                    if let Some(b) = best {
                        let kb = key_before(
                            depth_of(nodes, ids@[k as int]),
                            node.branch_name@,
                            depth_of(nodes, ids@[b as int]),
                            best_name@,
                        );
                        assert(replace == kb);
                        assert(replace == handled_before(nodes, ids@, k as int, b as int));
                        if replace {
                            assert forall|m: int|
                                0 <= m < k + 1 && #[trigger] missing_at(nodes, *facts, ids@, m) implies !handled_before(
                                nodes,
                                ids@,
                                m,
                                k as int,
                            ) by {
                                let nm = node_with_id(nodes, ids@[m]).unwrap().branch_name@;
                                lemma_key_order(
                                    depth_of(nodes, ids@[m]),
                                    nm,
                                    depth_of(nodes, ids@[k as int]),
                                    node.branch_name@,
                                    depth_of(nodes, ids@[b as int]),
                                    best_name@,
                                );
                            }
                            assert forall|m: int|
                                0 <= m < k && #[trigger] missing_at(nodes, *facts, ids@, m) implies handled_before(
                                nodes,
                                ids@,
                                k as int,
                                m,
                            ) by {
                                let nm = node_with_id(nodes, ids@[m]).unwrap().branch_name@;
                                lemma_key_order(
                                    depth_of(nodes, ids@[k as int]),
                                    node.branch_name@,
                                    depth_of(nodes, ids@[b as int]),
                                    best_name@,
                                    depth_of(nodes, ids@[m]),
                                    nm,
                                );
                            }
                        }
                    } else {
                        lemma_key_order(
                            depth_of(nodes, ids@[k as int]),
                            node.branch_name@,
                            depth_of(nodes, ids@[k as int]),
                            node.branch_name@,
                            0,
                            Seq::empty(),
                        );
                    }
                }
                if replace {
                    best = Some(k);
                    best_depth = depth;
                    best_name = node.branch_name.clone();
                }
            }
        }
        k = k + 1;
    }
    proof {
        assert(scope_ids(nodes, scope, ids@));
    }
    let ghost witness = ids@;
    match best {
        None => {
            let r: Result<Option<DeletedLocalBranchStep>, DigError> = Ok(None);
            assert(scope_ids(nodes, scope, witness));
            r
        },
        Some(b) => {
            proof {
                assert(next_missing(nodes, *facts, ids@, b as int));
            }
            match plan_deleted_local_step(state, trunk_branch, ids[b], facts) {
                Ok(step) => {
                    let r: Result<Option<DeletedLocalBranchStep>, DigError> = Ok(Some(step));
                    assert(scope_ids(nodes, scope, witness));
                    r
                },
                Err(e) => {
                    let r: Result<Option<DeletedLocalBranchStep>, DigError> = Err(e);
                    assert(scope_ids(nodes, scope, witness));
                    r
                },
            }
        },
    }
}

/// The number of active entries.
pub open spec fn active_count(nodes: Seq<BranchNode>) -> nat
    decreases nodes.len(),
{
    if nodes.len() == 0 {
        0
    } else {
        active_count(nodes.drop_last()) + if nodes.last().archived {
            0nat
        } else {
            1nat
        }
    }
}

proof fn lemma_active_count_update(nodes: Seq<BranchNode>, i: int, x: BranchNode)
    requires
        0 <= i < nodes.len(),
    ensures
        active_count(nodes.update(i, x)) + (if nodes[i].archived {
            0int
        } else {
            1int
        }) == active_count(nodes) + (if x.archived {
            0int
        } else {
            1int
        }),
    decreases nodes.len(),
{
    let u = nodes.update(i, x);
    if i == nodes.len() - 1 {
        assert(u.drop_last() =~= nodes.drop_last());
    } else {
        assert(u.drop_last() =~= nodes.drop_last().update(i, x));
        lemma_active_count_update(nodes.drop_last(), i, x);
    }
}

/// Whether `after` is `before` with the planned rebase `a` recorded: a branch that changes
/// parent gets the new parent and base; any other action leaves the store as it was.
pub open spec fn finalized(before: Seq<BranchNode>, after: Seq<BranchNode>, a: ActionView) -> bool {
    match a.new_parent {
        None => after == before,
        Some(p) => match id_position(before, a.node_id) {
            Some(i) => after == before.update(i, BranchNode { parent: p, base_ref: after[i].base_ref, ..before[i] })
                && after[i].base_ref@ == a.new_base.0,
            None => false,
        },
    }
}

/// Whether `after` is `before` with each planned rebase of `acts` recorded in turn.
pub open spec fn finalized_all(before: Seq<BranchNode>, after: Seq<BranchNode>, acts: Seq<ActionView>) -> bool
    decreases acts.len(),
{
    if acts.len() == 0 {
        after == before
    } else {
        exists|mid: Seq<BranchNode>|
            #![trigger finalized(mid, after, acts.last())]
            finalized_all(before, mid, acts.drop_last()) && finalized(mid, after, acts.last())
    }
}

proof fn lemma_finalized_all_count(before: Seq<BranchNode>, after: Seq<BranchNode>, acts: Seq<ActionView>)
    requires
        finalized_all(before, after, acts),
    ensures
        active_count(after) == active_count(before),
    decreases acts.len(),
{
    if acts.len() > 0 {
        let mid = choose|mid: Seq<BranchNode>|
            #![trigger finalized(mid, after, acts.last())]
            finalized_all(before, mid, acts.drop_last()) && finalized(mid, after, acts.last());
        lemma_finalized_all_count(before, mid, acts.drop_last());
        let a = acts.last();
        if let Some(p) = a.new_parent {
            let i = id_position(mid, a.node_id).unwrap();
            crate::model::lemma_id_position_is_first(mid, a.node_id);
            lemma_active_count_update(mid, i, after[i]);
        }
    }
}

/// Whether `after` is `mid` with the active branch of the given id archived.
pub open spec fn archived_in(mid: Seq<BranchNode>, after: Seq<BranchNode>, id: u128) -> bool {
    match id_position(mid, id) {
        Some(i) => after == mid.update(i, BranchNode { archived: true, ..mid[i] }),
        None => false,
    }
}

/// What simulating a step does to the store: its rebases are planned against the store and
/// recorded in turn, then its branch is archived; a failed plan leaves the store as it was,
/// and a recorded change that finds no active branch fails as not found.
pub open spec fn simulation_matches(
    r: Result<(), DigError>,
    before: Seq<BranchNode>,
    after: Seq<BranchNode>,
    step: DeletedLocalBranchStep,
    facts: RepoFacts,
) -> bool {
    match deleted_list(
        before,
        facts.heads@,
        facts.merge_bases@,
        children_spec(before, step.node_id),
        0,
        step.branch_name@,
        base_view(step.new_parent_base),
        step.new_parent,
        None,
    ) {
        Err(pe) => r matches Err(e) && (e.kind, e.message@) == pe && after == before,
        Ok(acts) => match r {
            Ok(_) => exists|mid: Seq<BranchNode>|
                #![trigger archived_in(mid, after, step.node_id)]
                finalized_all(before, mid, acts) && archived_in(mid, after, step.node_id),
            Err(e) => e.kind == ErrorKind::NotFound && e.message@ == branch_not_found_message(),
        },
    }
}

/// Records a step in the store as if it had been carried out: the rebases of its children,
/// then the archiving of its branch.
pub fn simulate_deleted_local_step(state: &mut DigState, step: &DeletedLocalBranchStep, facts: &RepoFacts) -> (r: Result<
    (),
    DigError,
>)
    ensures
        final(state).version == old(state).version,
        simulation_matches(r, old(state).nodes@, final(state).nodes@, *step, *facts),
        r is Ok ==> active_count(final(state).nodes@) + 1 == active_count(old(state).nodes@),
{
    let ghost before = state.nodes@;
    let actions = restack_actions_for_step(state, step, facts)?;
    let ghost acts = action_views(actions@);
    let mut i: usize = 0;
    while i < actions.len()
        invariant
            i <= actions.len(),
            acts == action_views(actions@),
            before == old(state).nodes@,
            deleted_list(
                before,
                facts.heads@,
                facts.merge_bases@,
                children_spec(before, step.node_id),
                0,
                step.branch_name@,
                base_view(step.new_parent_base),
                step.new_parent,
                None,
            ) == Ok::<Seq<ActionView>, PlanError>(acts),
            state.version == old(state).version,
            finalized_all(before, state.nodes@, acts.take(i as int)),
        decreases actions.len() - i,
    {
        let ghost mid = state.nodes@;
        let a = &actions[i];
        let result = finalize_action(state, a);
        match result {
            Ok(_) => {},
            Err(e) => {
                assert(e.kind == ErrorKind::NotFound && e.message@ == branch_not_found_message());
                assert(deleted_list(
                    before,
                    facts.heads@,
                    facts.merge_bases@,
                    children_spec(before, step.node_id),
                    0,
                    step.branch_name@,
                    base_view(step.new_parent_base),
                    step.new_parent,
                    None,
                ) == Ok::<Seq<ActionView>, PlanError>(acts));
                return Err(e);
            },
        }
        proof {
            assert(acts.take(i + 1).drop_last() =~= acts.take(i as int));
            assert(acts.take(i + 1).last() == actions@[i as int]@);
            assert(finalized(mid, state.nodes@, acts.take(i + 1).last()));
        }
        i = i + 1;
    }
    proof {
        assert(acts.take(acts.len() as int) =~= acts);
    }
    let ghost mid = state.nodes@;
    let archived = state.archive_branch(step.node_id);
    match archived {
        Ok(_) => {
            proof {
                assert(archived_in(mid, state.nodes@, step.node_id));
                lemma_finalized_all_count(before, mid, acts);
                let k = id_position(mid, step.node_id).unwrap();
                crate::model::lemma_id_position_is_first(mid, step.node_id);
                lemma_active_count_update(mid, k, state.nodes@[k]);
            }
            Ok(())
        },
        Err(e) => Err(e),
    }
}

/// A copy of a store.
pub fn copy_state(state: &DigState) -> (c: DigState)
    ensures
        c.version == state.version,
        c.nodes@ == state.nodes@,
{
    let mut nodes: Vec<BranchNode> = Vec::new();
    let mut i: usize = 0;
    while i < state.nodes.len()
        invariant
            i <= state.nodes.len(),
            nodes@ == state.nodes@.take(i as int),
        decreases state.nodes.len() - i,
    {
        nodes.push(state.nodes[i].duplicate());
        proof {
            assert(nodes@ =~= state.nodes@.take(i + 1));
        }
        i = i + 1;
    }
    proof {
        assert(nodes@ =~= state.nodes@);
    }
    DigState { version: state.version, nodes }
}

/// Whether `steps` are the reconciliation steps taken one after another from `start`: each the
/// next step of the store as the steps before it left it, and none left after the last.
pub open spec fn steps_chain(
    start: Seq<BranchNode>,
    states: Seq<Seq<BranchNode>>,
    steps: Seq<DeletedLocalBranchStep>,
    trunk: Seq<char>,
    scope: DeletedLocalScope,
    facts: RepoFacts,
) -> bool {
    &&& states.len() == steps.len() + 1
    &&& states[0] == start
    &&& forall|k: int|
        0 <= k < steps.len() ==> next_step_matches(Ok(Some(#[trigger] steps[k])), states[k], trunk, scope, facts)
            && simulation_matches(Ok(()), states[k], states[k + 1], steps[k], facts)
}

/// What collecting the reconciliation steps gives: the chain of steps from the store until
/// none is left; or, on failure, the chain up to the step whose planning or simulation failed.
pub open spec fn collected_matches(
    r: Result<Vec<DeletedLocalBranchStep>, DigError>,
    nodes: Seq<BranchNode>,
    trunk: Seq<char>,
    scope: DeletedLocalScope,
    facts: RepoFacts,
) -> bool {
    match r {
        Ok(steps) => exists|states: Seq<Seq<BranchNode>>|
            #![trigger steps_chain(nodes, states, steps@, trunk, scope, facts)]
            steps_chain(nodes, states, steps@, trunk, scope, facts) && next_step_matches(
                Ok(None),
                states.last(),
                trunk,
                scope,
                facts,
            ),
        Err(e) => exists|states: Seq<Seq<BranchNode>>, steps: Seq<DeletedLocalBranchStep>|
            #![trigger steps_chain(nodes, states, steps, trunk, scope, facts)]
            steps_chain(nodes, states, steps, trunk, scope, facts) && (next_step_matches(
                Err(e),
                states.last(),
                trunk,
                scope,
                facts,
            ) || exists|step: DeletedLocalBranchStep, after: Seq<BranchNode>|
                next_step_matches(Ok(Some(step)), states.last(), trunk, scope, facts)
                    && simulation_matches(Err(e), states.last(), after, step, facts)),
    }
}

/// Every reconciliation step in the scope, each planned against the store as the steps before
/// it would leave it, until no branch in scope is missing locally; the first failure ends it.
pub fn collect_deleted_local_steps_with_scope(
    state: &DigState,
    trunk_branch: &str,
    scope: DeletedLocalScope,
    facts: &RepoFacts,
) -> (r: Result<Vec<DeletedLocalBranchStep>, DigError>)
    ensures
        collected_matches(r, state.nodes@, trunk_branch@, scope, *facts),
{
    let mut simulated = copy_state(state);
    let mut steps: Vec<DeletedLocalBranchStep> = Vec::new();
    let ghost mut states: Seq<Seq<BranchNode>> = seq![state.nodes@];
    loop
        invariant
            steps_chain(state.nodes@, states, steps@, trunk_branch@, scope, *facts),
            states.last() == simulated.nodes@,
        decreases active_count(simulated.nodes@),
    {
        let next = next_deleted_local_step_with_scope(&simulated, trunk_branch, scope, facts);
        match next {
            Err(e) => {
                return Err(e);
            },
            Ok(None) => {
                proof {
                    assert(next_step_matches(Ok(None), states.last(), trunk_branch@, scope, *facts));
                    assert(steps_chain(state.nodes@, states, steps@, trunk_branch@, scope, *facts));
                    assert(exists|st: Seq<Seq<BranchNode>>|
                        #![trigger steps_chain(state.nodes@, st, steps@, trunk_branch@, scope, *facts)]
                        steps_chain(state.nodes@, st, steps@, trunk_branch@, scope, *facts) && next_step_matches(
                            Ok(None),
                            st.last(),
                            trunk_branch@,
                            scope,
                            *facts,
                        ));
                }
                let done: Result<Vec<DeletedLocalBranchStep>, DigError> = Ok(steps);
                assert(done matches Ok(v) && v@ == steps@);
                return done;
            },
            Ok(Some(step)) => {
                let ghost before = simulated.nodes@;
                let sim = simulate_deleted_local_step(&mut simulated, &step, facts);
                match sim {
                    Err(e) => {
                        return Err(e);
                    },
                    Ok(_) => {},
                }
                proof {
                    let old_states = states;
                    let old_steps = steps@;
                    states = states.push(simulated.nodes@);
                    assert forall|k: int| 0 <= k < old_steps.len() + 1 implies next_step_matches(
                        Ok(Some(#[trigger] old_steps.push(step)[k])),
                        states[k],
                        trunk_branch@,
                        scope,
                        *facts,
                    ) && simulation_matches(Ok(()), states[k], states[k + 1], old_steps.push(step)[k], *facts) by {
                        if k < old_steps.len() {
                            assert(old_steps.push(step)[k] == old_steps[k]);
                            assert(states[k] == old_states[k]);
                            assert(states[k + 1] == old_states[k + 1]);
                        }
                    }
                }
                steps.push(step);
            },
        }
    }
}

/// Every reconciliation step over all tracked branches.
pub fn collect_deleted_local_steps(state: &DigState, trunk_branch: &str, facts: &RepoFacts) -> (r: Result<
    Vec<DeletedLocalBranchStep>,
    DigError,
>)
    ensures
        collected_matches(r, state.nodes@, trunk_branch@, DeletedLocalScope::All, *facts),
{
    collect_deleted_local_steps_with_scope(state, trunk_branch, DeletedLocalScope::All, facts)
}

/// Every reconciliation step over one tracked branch and those below it.
pub fn collect_deleted_local_subtree_steps(
    state: &DigState,
    trunk_branch: &str,
    root_node_id: u128,
    facts: &RepoFacts,
) -> (r: Result<Vec<DeletedLocalBranchStep>, DigError>)
    ensures
        collected_matches(r, state.nodes@, trunk_branch@, DeletedLocalScope::Subtree { root_node_id }, *facts),
{
    collect_deleted_local_steps_with_scope(state, trunk_branch, DeletedLocalScope::Subtree { root_node_id }, facts)
}

/// The next reconciliation step over all tracked branches.
pub fn next_deleted_local_step(state: &DigState, trunk_branch: &str, facts: &RepoFacts) -> (r: Result<
    Option<DeletedLocalBranchStep>,
    DigError,
>)
    ensures
        next_step_matches(r, state.nodes@, trunk_branch@, DeletedLocalScope::All, *facts),
{
    next_deleted_local_step_with_scope(state, trunk_branch, DeletedLocalScope::All, facts)
}

} // verus!
