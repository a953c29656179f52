use vstd::prelude::*;

use crate::clean_types::{BlockedBranch, CleanBlockReason, CleanCandidate, CleanOptions, CleanPlan, CleanReason};
use crate::error::{DigError, ErrorKind};
use crate::graph::{
    children_spec, cycle_message, depth_of, full_chain, missing_name, reachable, subtree_view, subtree_walk, BranchGraph,
    SubtreeFailure,
};
use crate::model::{branch_not_found_message, id_position, node_named, parent_name_spec, BranchNode, DigState};
use crate::restack::{
    action_views, detach_list, git_failed, head_lookup, plan_after_branch_detach, preview_of, previews_for_actions,
    ActionView, PlanError, RepoFacts, RestackBaseTarget,
};
use crate::text::{str_equal, to_owned_string, trim, trim_spec, views};

verus! {

/// Whether a branch was found integrated into its parent, as git answered it.
#[derive(Debug, Clone, PartialEq, Eq)]
pub struct IntegrationFact {
    pub parent_branch: String,
    pub branch_name: String,
    pub integrated: bool,
}

/// What cleanup planning reads of the repository: the local branches and merge bases, and
/// for each branch whether it is integrated into its parent.
#[derive(Debug, Clone, PartialEq, Eq)]
pub struct CleanFacts {
    pub repo: RepoFacts,
    pub integration: Vec<IntegrationFact>,
}

/// The first answer on whether `branch` is integrated into `parent`.
pub open spec fn integration_lookup(fs: Seq<IntegrationFact>, parent: Seq<char>, branch: Seq<char>) -> Option<bool>
    decreases fs.len(),
{
    if fs.len() == 0 {
        None
    } else if fs[0].parent_branch@ == parent && fs[0].branch_name@ == branch {
        Some(fs[0].integrated)
    } else {
        integration_lookup(fs.drop_first(), parent, branch)
    }
}

fn find_integration(fs: &Vec<IntegrationFact>, parent: &str, branch: &str) -> (r: Option<bool>)
    ensures
        r == integration_lookup(fs@, parent@, branch@),
{
    let mut i: usize = 0;
    proof {
        assert(fs@.subrange(0, fs@.len() as int) =~= fs@);
    }
    while i < fs.len()
        invariant
            i <= fs.len(),
            integration_lookup(fs@.subrange(i as int, fs@.len() as int), parent@, branch@) == integration_lookup(
                fs@,
                parent@,
                branch@,
            ),
        decreases fs.len() - i,
    {
        let ghost rest = fs@.subrange(i as int, fs@.len() as int);
        proof {
            assert(rest.drop_first() =~= fs@.subrange(i + 1, fs@.len() as int));
        }
        if str_equal(fs[i].parent_branch.as_str(), parent) && str_equal(fs[i].branch_name.as_str(), branch) {
            return Some(fs[i].integrated);
        }
        i = i + 1;
    }
    None
}

/// How one tracked branch fares in a cleanup: it can be cleaned, or it is blocked.
#[derive(Debug)]
pub enum BranchEvaluation {
    Cleanable(CleanCandidate),
    Blocked(BlockedBranch),
}

/// Whether some active branch below `id` has no local branch.
pub open spec fn has_missing_descendant(nodes: Seq<BranchNode>, facts: RepoFacts, id: u128) -> bool {
    exists|d: u128, x: Seq<char>|
        #![trigger missing_name(nodes, facts.heads@, d, x)]
        d != id && reachable(nodes, id, d) && missing_name(nodes, facts.heads@, d, x)
}

/// Whether a blocked result names the branch and satisfies `reason_ok`.
pub open spec fn blocked_for(r: Result<BranchEvaluation, DigError>, name: Seq<char>) -> bool {
    r matches Ok(BranchEvaluation::Blocked(b)) && b.branch_name@ == name
}

/// The reason of a blocked result.
pub open spec fn blocked_reason(r: Result<BranchEvaluation, DigError>) -> CleanBlockReason
    recommends
        r matches Ok(BranchEvaluation::Blocked(_)),
{
    match r {
        Ok(BranchEvaluation::Blocked(b)) => b.reason,
        _ => CleanBlockReason::BranchNotTracked,
    }
}

/// Whether a cleanable result is the candidate for `node` cleaned into `parent`, with the
/// given rebases and subtree.
pub open spec fn candidate_matches(
    c: CleanCandidate,
    nodes: Seq<BranchNode>,
    node: BranchNode,
    parent: Seq<char>,
    actions: Seq<ActionView>,
    tree: crate::graph::SubtreeView,
) -> bool {
    &&& c.node_id == node.id
    &&& c.branch_name@ == node.branch_name@
    &&& c.parent_branch_name@ == parent
    &&& c.reason matches CleanReason::IntegratedIntoParent { parent_branch } && parent_branch@ == parent
    &&& subtree_view(c.tree) == tree
    &&& c.restack_plan@.len() == actions.len()
    &&& forall|i: int|
        0 <= i < actions.len() ==> (#[trigger] c.restack_plan@[i].branch_name@, c.restack_plan@[i].onto_branch@,
            c.restack_plan@[i].parent_changed) == preview_of(actions[i])
    &&& c.depth == depth_of(nodes, node.id)
}

/// What evaluating `node` for a cleanup gives: the first check it fails blocks it (missing
/// locally; parent gone from the store; parent missing locally; descendants missing locally;
/// not integrated), a question git could not answer or a failed plan is an error, and
/// otherwise the branch is a candidate with the rebases of its children onto its parent.
pub open spec fn evaluation_matches(
    r: Result<BranchEvaluation, DigError>,
    nodes: Seq<BranchNode>,
    facts: CleanFacts,
    trunk: Seq<char>,
    node: BranchNode,
) -> bool {
    let name = node.branch_name@;
    let heads = facts.repo.heads@;
    let parent = parent_name_spec(nodes, node.parent, trunk);
    if head_lookup(heads, name) is None {
        blocked_for(r, name) && blocked_reason(r) is BranchMissingLocally
    } else if parent is None {
        blocked_for(r, name) && blocked_reason(r) is ParentMissingFromDig
    } else if head_lookup(heads, parent.unwrap()) is None {
        blocked_for(r, name) && (blocked_reason(r) matches CleanBlockReason::ParentMissingLocally { parent_branch }
            && parent_branch@ == parent.unwrap())
    } else if has_missing_descendant(nodes, facts.repo, node.id) {
        blocked_for(r, name) && (blocked_reason(r) matches CleanBlockReason::DescendantsMissingLocally {
            branch_names,
        } && forall|x: Seq<char>|
            #![trigger views(branch_names@).contains(x)]
            views(branch_names@).contains(x) <==> exists|d: u128|
                #![trigger missing_name(nodes, heads, d, x)]
                d != node.id && reachable(nodes, node.id, d) && missing_name(nodes, heads, d, x))
    } else {
        match integration_lookup(facts.integration@, parent.unwrap(), name) {
            None => r matches Err(e) && (e.kind, e.message@) == git_failed(),
            Some(false) => blocked_for(r, name) && (blocked_reason(r) matches CleanBlockReason::NotIntegrated {
                parent_branch,
            } && parent_branch@ == parent.unwrap()),
            Some(true) => match detach_list(
                nodes,
                heads,
                children_spec(nodes, node.id),
                0,
                name,
                (parent.unwrap(), None),
                node.parent,
            ) {
                Err(pe) => r matches Err(e) && (e.kind, e.message@) == pe,
                Ok(actions) => match subtree_walk(nodes, node.id, Seq::<u128>::empty(), nodes.len()) {
                    Err(SubtreeFailure::Cycle(id)) => r matches Err(e) && e.kind == ErrorKind::InvalidData
                        && e.message@ == cycle_message(nodes, id),
                    Err(SubtreeFailure::Missing) => r matches Err(e) && e.kind == ErrorKind::NotFound && e.message@
                        == branch_not_found_message(),
                    Ok((t, _)) => r matches Ok(BranchEvaluation::Cleanable(c)) && candidate_matches(
                        c,
                        nodes,
                        node,
                        parent.unwrap(),
                        actions,
                        t,
                    ),
                },
            },
        }
    }
}

/// Evaluates one tracked branch for a cleanup against the store, the local branches and
/// the integration answers.
pub fn evaluate_branch(state: &DigState, trunk_branch: &str, node: &BranchNode, facts: &CleanFacts) -> (r: Result<
    BranchEvaluation,
    DigError,
>)
    ensures
        evaluation_matches(r, state.nodes@, *facts, trunk_branch@, *node),
{
    if crate::restack::find_head(&facts.repo.heads, node.branch_name.as_str()).is_none() {
        return Ok(
            BranchEvaluation::Blocked(
                BlockedBranch { branch_name: node.branch_name.clone(), reason: CleanBlockReason::BranchMissingLocally },
            ),
        );
    }
    let graph = BranchGraph::new(state);
    let parent_name = match graph.parent_branch_name(node, trunk_branch) {
        Some(p) => p,
        None => {
            return Ok(
                BranchEvaluation::Blocked(
                    BlockedBranch {
                        branch_name: node.branch_name.clone(),
                        reason: CleanBlockReason::ParentMissingFromDig,
                    },
                ),
            );
        },
    };
    if crate::restack::find_head(&facts.repo.heads, parent_name.as_str()).is_none() {
        return Ok(
            BranchEvaluation::Blocked(
                BlockedBranch {
                    branch_name: node.branch_name.clone(),
                    reason: CleanBlockReason::ParentMissingLocally { parent_branch: parent_name },
                },
            ),
        );
    }
    let missing = graph.missing_local_descendants(node.id, &facts.repo.heads);
    if missing.len() > 0 {
        proof {
            let x = views(missing@)[0];
            assert(views(missing@).contains(x));
        }
        return Ok(
            BranchEvaluation::Blocked(
                BlockedBranch {
                    branch_name: node.branch_name.clone(),
                    reason: CleanBlockReason::DescendantsMissingLocally { branch_names: missing },
                },
            ),
        );
    }
    proof {
        assert forall|d: u128, x: Seq<char>|
            d != node.id && reachable(state.nodes@, node.id, d) && missing_name(
                state.nodes@,
                facts.repo.heads@,
                d,
                x,
            ) implies false by {
            assert(views(missing@).contains(x));
        }
    }
    match find_integration(&facts.integration, parent_name.as_str(), node.branch_name.as_str()) {
        None => {
            return Err(DigError::new(ErrorKind::Other, crate::text::to_owned_string("git command failed")));
        },
        Some(false) => {
            return Ok(
                BranchEvaluation::Blocked(
                    BlockedBranch {
                        branch_name: node.branch_name.clone(),
                        reason: CleanBlockReason::NotIntegrated { parent_branch: parent_name },
                    },
                ),
            );
        },
        Some(true) => {},
    }
    let base = RestackBaseTarget::local(parent_name.as_str());
    let actions = plan_after_branch_detach(state, &facts.repo, node.id, node.branch_name.as_str(), &base, &node.parent)?;
    let tree = graph.subtree(node.id)?;
    let restack_plan = previews_for_actions(actions.as_slice());
    let depth = graph.branch_depth(node.id);
    proof {
        assert forall|i: int| 0 <= i < actions@.len() implies #[trigger] action_views(actions@)[i] == actions@[i]@ by {}
    }
    Ok(
        BranchEvaluation::Cleanable(
            CleanCandidate {
                node_id: node.id,
                branch_name: node.branch_name.clone(),
                parent_branch_name: parent_name.clone(),
                reason: CleanReason::IntegratedIntoParent { parent_branch: parent_name },
                tree,
                restack_plan,
                depth,
            },
        ),
    )
}

/// Whether evaluating `node` ends in an error: git could not say whether it is integrated,
/// or the rebase plan or the subtree of a cleanable branch failed.
pub open spec fn evaluation_fails(nodes: Seq<BranchNode>, facts: CleanFacts, trunk: Seq<char>, node: BranchNode) -> bool {
    let name = node.branch_name@;
    let heads = facts.repo.heads@;
    let parent = parent_name_spec(nodes, node.parent, trunk);
    &&& head_lookup(heads, name) is Some
    &&& parent is Some
    &&& head_lookup(heads, parent.unwrap()) is Some
    &&& !has_missing_descendant(nodes, facts.repo, node.id)
    &&& match integration_lookup(facts.integration@, parent.unwrap(), name) {
        None => true,
        Some(false) => false,
        Some(true) => match detach_list(
            nodes,
            heads,
            children_spec(nodes, node.id),
            0,
            name,
            (parent.unwrap(), None),
            node.parent,
        ) {
            Err(_) => true,
            Ok(_) => subtree_walk(nodes, node.id, Seq::<u128>::empty(), nodes.len()) is Err,
        },
    }
}

/// Whether `node` can be cleaned: every check passes and its plan and subtree succeed.
pub open spec fn evaluation_cleanable(nodes: Seq<BranchNode>, facts: CleanFacts, trunk: Seq<char>, node: BranchNode) -> bool {
    let name = node.branch_name@;
    let heads = facts.repo.heads@;
    let parent = parent_name_spec(nodes, node.parent, trunk);
    &&& head_lookup(heads, name) is Some
    &&& parent is Some
    &&& head_lookup(heads, parent.unwrap()) is Some
    &&& !has_missing_descendant(nodes, facts.repo, node.id)
    &&& integration_lookup(facts.integration@, parent.unwrap(), name) == Some(true)
    &&& detach_list(nodes, heads, children_spec(nodes, node.id), 0, name, (parent.unwrap(), None), node.parent) is Ok
    &&& subtree_walk(nodes, node.id, Seq::<u128>::empty(), nodes.len()) is Ok
}

proof fn lemma_evaluation_kind(
    r: Result<BranchEvaluation, DigError>,
    nodes: Seq<BranchNode>,
    facts: CleanFacts,
    trunk: Seq<char>,
    node: BranchNode,
)
    requires
        evaluation_matches(r, nodes, facts, trunk, node),
    ensures
        r is Err <==> evaluation_fails(nodes, facts, trunk, node),
        (r matches Ok(BranchEvaluation::Cleanable(_))) <==> evaluation_cleanable(nodes, facts, trunk, node),
{
}

/// Whether entry `i` of the store is an active branch.
pub open spec fn active_at(nodes: Seq<BranchNode>, i: int) -> bool {
    0 <= i < nodes.len() && !nodes[i].archived
}

/// Whether entry `i` is an active branch that can be cleaned.
pub open spec fn cleanable_at(nodes: Seq<BranchNode>, facts: CleanFacts, trunk: Seq<char>, i: int) -> bool {
    active_at(nodes, i) && evaluation_cleanable(nodes, facts, trunk, nodes[i])
}

/// Whether entry `i` is an active branch that a check blocks.
pub open spec fn blocked_at(nodes: Seq<BranchNode>, facts: CleanFacts, trunk: Seq<char>, i: int) -> bool {
    active_at(nodes, i) && !evaluation_fails(nodes, facts, trunk, nodes[i]) && !evaluation_cleanable(
        nodes,
        facts,
        trunk,
        nodes[i],
    )
}

/// The entries among the first `k` that can be cleaned (`cleanable`) or are blocked, in order.
pub open spec fn positions_upto(nodes: Seq<BranchNode>, facts: CleanFacts, trunk: Seq<char>, k: int, cleanable: bool) -> Seq<
    int,
>
    decreases k,
{
    if k <= 0 {
        Seq::empty()
    } else {
        let prev = positions_upto(nodes, facts, trunk, k - 1, cleanable);
        if (if cleanable {
            cleanable_at(nodes, facts, trunk, k - 1)
        } else {
            blocked_at(nodes, facts, trunk, k - 1)
        }) {
            prev.push(k - 1)
        } else {
            prev
        }
    }
}

proof fn lemma_positions(nodes: Seq<BranchNode>, facts: CleanFacts, trunk: Seq<char>, k: int, cleanable: bool)
    ensures
        ({
            let ps = positions_upto(nodes, facts, trunk, k, cleanable);
            &&& forall|j: int|
                0 <= j < ps.len() ==> 0 <= #[trigger] ps[j] < k && (if cleanable {
                    cleanable_at(nodes, facts, trunk, ps[j])
                } else {
                    blocked_at(nodes, facts, trunk, ps[j])
                })
            &&& forall|m: int|
                0 <= m < k && (if cleanable {
                    cleanable_at(nodes, facts, trunk, m)
                } else {
                    blocked_at(nodes, facts, trunk, m)
                }) ==> #[trigger] ps.contains(m)
        }),
    decreases k,
{
    if k > 0 {
        lemma_positions(nodes, facts, trunk, k - 1, cleanable);
        let prev = positions_upto(nodes, facts, trunk, k - 1, cleanable);
        let ps = positions_upto(nodes, facts, trunk, k, cleanable);
        assert forall|m: int|
            0 <= m < k && (if cleanable {
                cleanable_at(nodes, facts, trunk, m)
            } else {
                blocked_at(nodes, facts, trunk, m)
            }) implies #[trigger] ps.contains(m) by {
            if m < k - 1 {
                assert(prev.contains(m));
                let j = choose|j: int| 0 <= j < prev.len() && prev[j] == m;
                assert(ps[j] == prev[j]);
            } else {
                assert(ps[ps.len() - 1] == m);
            }
        }
    }
}

/// Whether no active branch among the first `k` entries fails its evaluation.
pub open spec fn no_failure_upto(nodes: Seq<BranchNode>, facts: CleanFacts, trunk: Seq<char>, k: int) -> bool {
    forall|j: int| 0 <= j < k && active_at(nodes, j) ==> !evaluation_fails(nodes, facts, trunk, #[trigger] nodes[j])
}

/// Whether entry `i` is the first active branch whose evaluation fails.
pub open spec fn first_failure(nodes: Seq<BranchNode>, facts: CleanFacts, trunk: Seq<char>, i: int) -> bool {
    active_at(nodes, i) && evaluation_fails(nodes, facts, trunk, nodes[i]) && no_failure_upto(nodes, facts, trunk, i)
}

/// Whether `cs` are the candidates of the entries `ps`, one for one.
pub open spec fn candidates_listed(
    cs: Seq<CleanCandidate>,
    ps: Seq<int>,
    nodes: Seq<BranchNode>,
    facts: CleanFacts,
    trunk: Seq<char>,
) -> bool {
    cs.len() == ps.len() && forall|j: int|
        0 <= j < cs.len() ==> evaluation_matches(
            Ok(BranchEvaluation::Cleanable(#[trigger] cs[j])),
            nodes,
            facts,
            trunk,
            nodes[ps[j]],
        )
}

/// Whether `bs` are the blocked branches of the entries `ps`, one for one.
pub open spec fn blocked_listed(
    bs: Seq<BlockedBranch>,
    ps: Seq<int>,
    nodes: Seq<BranchNode>,
    facts: CleanFacts,
    trunk: Seq<char>,
) -> bool {
    bs.len() == ps.len() && forall|j: int|
        0 <= j < bs.len() ==> evaluation_matches(
            Ok(BranchEvaluation::Blocked(#[trigger] bs[j])),
            nodes,
            facts,
            trunk,
            nodes[ps[j]],
        )
}

/// Whether some other cleanable branch lies below entry `i`.
pub open spec fn has_cleanable_descendant(nodes: Seq<BranchNode>, facts: CleanFacts, trunk: Seq<char>, i: int) -> bool {
    exists|m: int|
        #![trigger cleanable_at(nodes, facts, trunk, m)]
        cleanable_at(nodes, facts, trunk, m) && nodes[m].id != nodes[i].id && reachable(nodes, nodes[i].id, nodes[m].id)
}

/// The test that keeps a cleanable entry: no other cleanable branch lies below it.
pub open spec fn keeps(nodes: Seq<BranchNode>, facts: CleanFacts, trunk: Seq<char>) -> spec_fn(int) -> bool {
    |m: int| !has_cleanable_descendant(nodes, facts, trunk, m)
}

/// The cleanable entries with no cleanable branch below them, in store order.
pub open spec fn kept_positions(nodes: Seq<BranchNode>, facts: CleanFacts, trunk: Seq<char>) -> Seq<int> {
    positions_upto(nodes, facts, trunk, nodes.len() as int, true).filter(keeps(nodes, facts, trunk))
}

/// Whether candidate `x` is listed before `y`: deeper first, then by name.
pub open spec fn deeper_first(x: CleanCandidate, y: CleanCandidate) -> bool {
    x.depth > y.depth || (x.depth == y.depth && crate::ordering::name_lt(x.branch_name@, y.branch_name@))
}

/// Where `x` goes into the sorted `r`: before the first entry from `j` on that it precedes.
pub open spec fn insert_position(r: Seq<CleanCandidate>, x: CleanCandidate, j: int) -> int
    decreases r.len() - j,
{
    if j >= r.len() {
        r.len() as int
    } else if deeper_first(x, r[j]) {
        j
    } else {
        insert_position(r, x, j + 1)
    }
}

/// The candidates sorted deeper first and then by name, equal ones in their given order.
pub open spec fn sort_candidates(s: Seq<CleanCandidate>) -> Seq<CleanCandidate>
    decreases s.len(),
{
    if s.len() == 0 {
        s
    } else {
        let r = sort_candidates(s.drop_last());
        r.insert(insert_position(r, s.last(), 0), s.last())
    }
}

fn precedes(x: &CleanCandidate, y: &CleanCandidate) -> (r: bool)
    ensures
        r == deeper_first(*x, *y),
{
    x.depth > y.depth || (x.depth == y.depth && crate::ordering::name_less(
        x.branch_name.as_str(),
        y.branch_name.as_str(),
    ))
}

fn insert_sorted(r: &mut Vec<CleanCandidate>, c: CleanCandidate)
    ensures
        final(r)@ == old(r)@.insert(insert_position(old(r)@, c, 0), c),
{
    let mut k: usize = 0;
    while k < r.len() && !precedes(&c, &r[k])
        invariant
            k <= r.len(),
            r@ == old(r)@,
            insert_position(r@, c, 0) == insert_position(r@, c, k as int),
        decreases r.len() - k,
    {
        k = k + 1;
    }
    r.insert(k, c);
}

/// What the cleanup plan over every branch is: the first evaluation that fails fails it;
/// otherwise it lists the blocked branches in store order, and the cleanable branches with no
/// cleanable branch below them, deeper first and then by name.
pub open spec fn all_plan_matches(
    r: Result<CleanPlan, DigError>,
    nodes: Seq<BranchNode>,
    facts: CleanFacts,
    trunk: Seq<char>,
    current: Seq<char>,
) -> bool {
    match r {
        Err(e) => exists|i: int|
            first_failure(nodes, facts, trunk, i) && evaluation_matches(
                Err(e),
                nodes,
                facts,
                trunk,
                nodes[i],
            ),
        Ok(p) => {
            &&& p.trunk_branch@ == trunk
            &&& p.current_branch@ == current
            &&& p.requested_branch_name is None
            &&& no_failure_upto(nodes, facts, trunk, nodes.len() as int)
            &&& blocked_listed(
                p.blocked@,
                positions_upto(nodes, facts, trunk, nodes.len() as int, false),
                nodes,
                facts,
                trunk,
            )
            &&& exists|kept: Seq<CleanCandidate>|
                candidates_listed(kept, kept_positions(nodes, facts, trunk), nodes, facts, trunk)
                    && p.candidates@ == sort_candidates(kept)
        },
    }
}

/// The cleanup plan over every active tracked branch: the blocked ones in store order, and
/// the cleanable ones with no cleanable branch below them, deeper first and then by name;
/// the first evaluation that fails fails the plan.
pub fn plan_for_all_branches(state: &DigState, trunk_branch: &str, current_branch: &str, facts: &CleanFacts) -> (r: Result<
    CleanPlan,
    DigError,
>)
    ensures
        all_plan_matches(r, state.nodes@, *facts, trunk_branch@, current_branch@),
{
    let ghost nodes = state.nodes@;
    let ghost trunk = trunk_branch@;
    let mut cleanable: Vec<CleanCandidate> = Vec::new();
    let mut ids: Vec<u128> = Vec::new();
    let mut blocked: Vec<BlockedBranch> = Vec::new();
    let mut i: usize = 0;
    while i < state.nodes.len()
        invariant
            i <= state.nodes.len(),
            nodes == state.nodes@,
            trunk == trunk_branch@,
            no_failure_upto(nodes, *facts, trunk, i as int),
            candidates_listed(cleanable@, positions_upto(nodes, *facts, trunk, i as int, true), nodes, *facts, trunk),
            blocked_listed(blocked@, positions_upto(nodes, *facts, trunk, i as int, false), nodes, *facts, trunk),
            ids@.len() == cleanable@.len(),
            forall|j: int| 0 <= j < ids@.len() ==> #[trigger] ids@[j] == cleanable@[j].node_id,
        decreases state.nodes.len() - i,
    {
        let node = &state.nodes[i];
        if !node.archived {
            let ev = evaluate_branch(state, trunk_branch, node, facts);
            proof {
                lemma_evaluation_kind(ev, nodes, *facts, trunk, nodes[i as int]);
            }
            match ev {
                Err(e) => {
                    assert(first_failure(nodes, *facts, trunk, i as int));
                    return Err(e);
                },
                Ok(BranchEvaluation::Cleanable(c)) => {
                    ids.push(c.node_id);
                    cleanable.push(c);
                },
                Ok(BranchEvaluation::Blocked(b)) => {
                    blocked.push(b);
                },
            }
        }
        i = i + 1;
    }
    let ghost all_c = cleanable@;
    let ghost cp = positions_upto(nodes, *facts, trunk, nodes.len() as int, true);
    proof {
        lemma_positions(nodes, *facts, trunk, nodes.len() as int, true);
        assert forall|x: u128| ids@.contains(x) <==> exists|m: int| #[trigger] cleanable_at(nodes, *facts, trunk, m) && nodes[m].id == x by {
            if ids@.contains(x) {
                let j = choose|j: int| 0 <= j < ids@.len() && ids@[j] == x;
                assert(cleanable_at(nodes, *facts, trunk, cp[j]));
            }
            if exists|m: int| #[trigger] cleanable_at(nodes, *facts, trunk, m) && nodes[m].id == x {
                let m = choose|m: int| #[trigger] cleanable_at(nodes, *facts, trunk, m) && nodes[m].id == x;
                assert(cp.contains(m));
                let j = choose|j: int| 0 <= j < cp.len() && cp[j] == m;
                assert(ids@[j] == x);
            }
        }
    }
    let graph = BranchGraph::new(state);
    let mut sorted: Vec<CleanCandidate> = Vec::new();
    let ghost mut kept: Seq<CleanCandidate> = Seq::empty();
    let mut j: usize = 0;
    let total = cleanable.len();
    while j < total
        invariant
            j <= total,
            total == all_c.len(),
            nodes == state.nodes@,
            graph.state == state,
            trunk == trunk_branch@,
            cleanable@ == all_c.skip(j as int),
            candidates_listed(all_c, cp, nodes, *facts, trunk),
            cp == positions_upto(nodes, *facts, trunk, nodes.len() as int, true),
            forall|x: u128| ids@.contains(x) <==> exists|m: int| #[trigger] cleanable_at(nodes, *facts, trunk, m) && nodes[m].id == x,
            candidates_listed(kept, cp.take(j as int).filter(keeps(nodes, *facts, trunk)), nodes, *facts, trunk),
            sorted@ == sort_candidates(kept),
        decreases total - j,
    {
        let c = cleanable.remove(0);
        assert(c == all_c[j as int]);
        let desc = graph.active_descendant_ids(c.node_id);
        let mut found = false;
        let mut k: usize = 0;
        while k < desc.len()
            invariant
                k <= desc.len(),
                found == exists|t: int| 0 <= t < k && ids@.contains(#[trigger] desc@[t]),
            decreases desc.len() - k,
        {
            if crate::graph::ids_contain(&ids, desc[k]) {
                found = true;
            }
            k = k + 1;
        }
        let ghost m0 = cp[j as int];
        proof {
            assert(c.node_id == nodes[m0].id);
            if found {
                let t = choose|t: int| 0 <= t < desc@.len() && ids@.contains(#[trigger] desc@[t]);
                let x = desc@[t];
                assert(desc@.contains(x));
                let m = choose|m: int| #[trigger] cleanable_at(nodes, *facts, trunk, m) && nodes[m].id == x;
                assert(has_cleanable_descendant(nodes, *facts, trunk, m0));
            } else {
                assert forall|m: int|
                    #[trigger] cleanable_at(nodes, *facts, trunk, m) && nodes[m].id != nodes[m0].id implies !reachable(
                    nodes,
                    nodes[m0].id,
                    nodes[m].id,
                ) by {
                    if reachable(nodes, nodes[m0].id, nodes[m].id) {
                        let x = nodes[m].id;
                        assert(desc@.contains(x));
                        let t = choose|t: int| 0 <= t < desc@.len() && desc@[t] == x;
                        assert(ids@.contains(desc@[t]));
                    }
                }
                assert(!has_cleanable_descendant(nodes, *facts, trunk, m0));
            }
            assert(keeps(nodes, *facts, trunk)(m0) == !found);
        }
        let ghost f = keeps(nodes, *facts, trunk);
        let ghost before = cp.take(j as int).filter(f);
        proof {
            reveal(Seq::filter);
            let s1 = cp.take(j + 1);
            assert(s1.drop_last() =~= cp.take(j as int));
            assert(s1.last() == m0);
            if found {
                assert(s1.filter(f) == before);
            } else {
                assert(s1.filter(f) == before.push(m0));
            }
        }
        if !found {
            let ghost old_kept = kept;
            proof {
                kept = kept.push(c);
                assert(kept.drop_last() =~= old_kept);
                assert(kept.last() == c);
            }
            insert_sorted(&mut sorted, c);
            proof {
                let after = before.push(m0);
                assert forall|t: int| 0 <= t < kept.len() implies evaluation_matches(
                    Ok(BranchEvaluation::Cleanable(#[trigger] kept[t])),
                    nodes,
                    *facts,
                    trunk,
                    nodes[after[t]],
                ) by {
                    if t < old_kept.len() {
                        assert(kept[t] == old_kept[t]);
                        assert(after[t] == before[t]);
                    }
                }
            }
        }
        proof {
            assert(all_c.skip(j + 1) =~= all_c.skip(j as int).remove(0));
        }
        j = j + 1;
    }
    proof {
        assert(cp.take(cp.len() as int) =~= cp);
    }
    Ok(
        CleanPlan {
            trunk_branch: crate::text::to_owned_string(trunk_branch),
            current_branch: crate::text::to_owned_string(current_branch),
            requested_branch_name: None,
            candidates: sorted,
            blocked,
        },
    )
}

/// What the cleanup plan for one requested branch is: an untracked name is blocked as such;
/// a tracked one is evaluated, and the plan holds it as the candidate or the blocked branch.
pub open spec fn requested_plan_matches(
    r: Result<CleanPlan, DigError>,
    nodes: Seq<BranchNode>,
    facts: CleanFacts,
    trunk: Seq<char>,
    current: Seq<char>,
    name: Seq<char>,
) -> bool {
    match r {
        Err(e) => match node_named(nodes, name) {
            None => false,
            Some(n) => evaluation_matches(Err(e), nodes, facts, trunk, n),
        },
        Ok(p) => {
            &&& p.trunk_branch@ == trunk
            &&& p.current_branch@ == current
            &&& p.requested_branch_name matches Some(b) && b@ == name
            &&& match node_named(nodes, name) {
                None => p.candidates@.len() == 0 && p.blocked@.len() == 1 && p.blocked@[0].branch_name@ == name
                    && p.blocked@[0].reason is BranchNotTracked,
                Some(n) => (p.candidates@.len() == 1 && p.blocked@.len() == 0 && evaluation_matches(
                    Ok(BranchEvaluation::Cleanable(p.candidates@[0])),
                    nodes,
                    facts,
                    trunk,
                    n,
                )) || (p.candidates@.len() == 0 && p.blocked@.len() == 1 && evaluation_matches(
                    Ok(BranchEvaluation::Blocked(p.blocked@[0])),
                    nodes,
                    facts,
                    trunk,
                    n,
                )),
            }
        },
    }
}

/// The cleanup plan for one requested branch.
pub fn plan_for_requested_branch(
    state: &DigState,
    trunk_branch: &str,
    current_branch: &str,
    branch_name: &str,
    facts: &CleanFacts,
) -> (r: Result<CleanPlan, DigError>)
    ensures
        requested_plan_matches(r, state.nodes@, *facts, trunk_branch@, current_branch@, branch_name@),
{
    let evaluation = match state.find_branch_by_name(branch_name) {
        Some(node) => evaluate_branch(state, trunk_branch, node, facts)?,
        None => BranchEvaluation::Blocked(
            BlockedBranch { branch_name: to_owned_string(branch_name), reason: CleanBlockReason::BranchNotTracked },
        ),
    };
    let mut candidates: Vec<CleanCandidate> = Vec::new();
    let mut blocked: Vec<BlockedBranch> = Vec::new();
    match evaluation {
        BranchEvaluation::Cleanable(c) => candidates.push(c),
        BranchEvaluation::Blocked(b) => blocked.push(b),
    }
    Ok(
        CleanPlan {
            trunk_branch: to_owned_string(trunk_branch),
            current_branch: to_owned_string(current_branch),
            requested_branch_name: Some(to_owned_string(branch_name)),
            candidates,
            blocked,
        },
    )
}

/// The branch a cleanup is limited to: the requested name, trimmed, unless it is blank.
pub open spec fn requested_name(options: CleanOptions) -> Option<Seq<char>> {
    match options.branch_name {
        Some(b) => if trim_spec(b@).len() > 0 {
            Some(trim_spec(b@))
        } else {
            None
        },
        None => None,
    }
}

/// The cleanup plan: for the requested branch when one is named, else over every branch.
pub fn plan(
    options: &CleanOptions,
    state: &DigState,
    trunk_branch: &str,
    current_branch: &str,
    facts: &CleanFacts,
) -> (r: Result<CleanPlan, DigError>)
    ensures
        match requested_name(*options) {
            Some(name) => requested_plan_matches(r, state.nodes@, *facts, trunk_branch@, current_branch@, name),
            None => all_plan_matches(r, state.nodes@, *facts, trunk_branch@, current_branch@),
        },
{
    if let Some(b) = &options.branch_name {
        let name = trim(b.as_str());
        if name.as_str().unicode_len() > 0 {
            return plan_for_requested_branch(state, trunk_branch, current_branch, name.as_str(), facts);
        }
    }
    plan_for_all_branches(state, trunk_branch, current_branch, facts)
}

/// Whether candidates are listed deeper first and then by name: none comes after one it
/// should precede.
pub open spec fn listed_deeper_first(r: Seq<CleanCandidate>) -> bool {
    forall|i: int, j: int| 0 <= i < j < r.len() ==> !deeper_first(#[trigger] r[j], #[trigger] r[i])
}

proof fn lemma_deeper_first_order(x: CleanCandidate, y: CleanCandidate, z: CleanCandidate)
    ensures
        !deeper_first(x, x),
        deeper_first(x, y) && deeper_first(y, z) ==> deeper_first(x, z),
{
    crate::ordering::lemma_name_lt_irreflexive(x.branch_name@);
    if crate::ordering::name_lt(x.branch_name@, y.branch_name@) && crate::ordering::name_lt(
        y.branch_name@,
        z.branch_name@,
    ) {
        crate::ordering::lemma_name_lt_transitive(x.branch_name@, y.branch_name@, z.branch_name@);
    }
}

proof fn lemma_insert_position(r: Seq<CleanCandidate>, x: CleanCandidate, j: int)
    requires
        0 <= j <= r.len(),
        forall|k: int| 0 <= k < j ==> !deeper_first(x, #[trigger] r[k]),
    ensures
        j <= insert_position(r, x, j) <= r.len(),
        forall|k: int| 0 <= k < insert_position(r, x, j) ==> !deeper_first(x, #[trigger] r[k]),
        insert_position(r, x, j) < r.len() ==> deeper_first(x, r[insert_position(r, x, j)]),
    decreases r.len() - j,
{
    if j < r.len() && !deeper_first(x, r[j]) {
        lemma_insert_position(r, x, j + 1);
    }
}

/// The cleanup candidates are listed deeper first and then by name, and sorting keeps
/// every candidate, each as often as it came.
pub proof fn lemma_sort_candidates(s: Seq<CleanCandidate>)
    ensures
        listed_deeper_first(sort_candidates(s)),
        sort_candidates(s).to_multiset() == s.to_multiset(),
    decreases s.len(),
{
    broadcast use vstd::seq_lib::to_multiset_insert, vstd::seq_lib::to_multiset_build;

    if s.len() > 0 {
        let r = sort_candidates(s.drop_last());
        lemma_sort_candidates(s.drop_last());
        let x = s.last();
        lemma_insert_position(r, x, 0);
        let p = insert_position(r, x, 0);
        let out = r.insert(p, x);
        assert(out == sort_candidates(s));
        assert forall|i: int, j: int| 0 <= i < j < out.len() implies !deeper_first(#[trigger] out[j], #[trigger] out[i]) by {
            if j < p {
                assert(out[i] == r[i] && out[j] == r[j]);
            } else if j == p {
                assert(out[i] == r[i]);
            } else if i < p {
                assert(out[i] == r[i] && out[j] == r[j - 1]);
            } else if i == p {
                assert(out[j] == r[j - 1]);
                lemma_deeper_first_order(r[j - 1], x, r[p]);
                if j - 1 > p {
                    assert(!deeper_first(r[j - 1], r[p]));
                } else {
                    lemma_deeper_first_order(r[p], r[p], r[p]);
                }
            } else {
                assert(out[i] == r[i - 1] && out[j] == r[j - 1]);
            }
        }
        assert(s =~= s.drop_last().push(x));
    }
}

} // verus!
