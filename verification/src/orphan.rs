use vstd::prelude::*;

use crate::branch::{
    branch_exists, branch_exists_spec, named_error, named_failure, opt_str_view, resolve_name, resolve_name_spec,
};
use crate::error::{push_quoted, quoted, DigError, ErrorKind};
use crate::graph::{
    children_spec, descendant_missing, refused_for_missing, require_local_descendants,
    BranchGraph,
};
use crate::layout::opt_view;
use crate::model::{node_named, parent_name_spec, BranchNode, DigConfig, DigState};
use crate::options::OrphanOptions;
use crate::restack::{
    action_views, detach_list, plan_after_branch_detach, previews_for_actions, previews_match, PlanError,
    RepoFacts, RestackBaseTarget, RestackPreview,
};
use crate::text::{str_equal, to_owned_string};

verus! {

/// What orphaning a tracked branch will do: stop tracking it and move its children onto its
/// parent.
#[derive(Debug, Clone, PartialEq, Eq)]
pub struct OrphanPlan {
    pub trunk_branch: String,
    pub original_branch: String,
    pub branch_name: String,
    pub parent_branch_name: String,
    pub node_id: u128,
    pub restack_plan: Vec<RestackPreview>,
}

/// The checks of the orphan command before its descendants are looked at: the branch it acts
/// on, its tracked node and the name of its parent.
pub open spec fn orphan_target_spec(
    options: OrphanOptions,
    original_branch: Seq<char>,
    nodes: Seq<BranchNode>,
    trunk: Seq<char>,
    facts: RepoFacts,
) -> Result<(Seq<char>, BranchNode, Seq<char>), PlanError> {
    match resolve_name_spec(original_branch, opt_view(options.branch_name), "branch name"@) {
        Err(e) => Err(e),
        Ok(name) => if name == trunk {
            Err((ErrorKind::InvalidInput, "cannot orphan trunk branch "@ + quoted(trunk)))
        } else if !branch_exists_spec(facts, name) {
            Err(named_error(ErrorKind::NotFound, "branch "@, name, " does not exist"@))
        } else {
            match node_named(nodes, name) {
                None => Err(named_error(ErrorKind::NotFound, "branch "@, name, " is not tracked by dig"@)),
                Some(node) => match parent_name_spec(nodes, node.parent, trunk) {
                    None => Err(named_error(ErrorKind::Other, "tracked parent for "@, name, " is missing from dig"@)),
                    Some(parent) => if !branch_exists_spec(facts, parent) {
                        Err(named_error(ErrorKind::NotFound, "parent branch "@, parent, " does not exist"@))
                    } else {
                        Ok((name, node, parent))
                    },
                },
            }
        },
    }
}

/// Whether `r` is what planning an orphan gives: a failed check is its error, missing
/// descendants are named, and otherwise the children of the branch go onto its parent.
pub open spec fn orphan_plan_matches(
    r: Result<OrphanPlan, DigError>,
    options: OrphanOptions,
    original_branch: Seq<char>,
    nodes: Seq<BranchNode>,
    trunk: Seq<char>,
    facts: RepoFacts,
) -> bool {
    match orphan_target_spec(options, original_branch, nodes, trunk, facts) {
        Err(pe) => r matches Err(e) && (e.kind, e.message@) == pe,
        Ok((name, node, parent)) => if descendant_missing(nodes, facts.heads@, node.id) {
            r matches Err(e) && refused_for_missing(e, nodes, facts.heads@, node.id, name)
        } else {
            match detach_list(
                nodes,
                facts.heads@,
                children_spec(nodes, node.id),
                0,
                node.branch_name@,
                (parent, None),
                node.parent,
            ) {
                Err(pe) => r matches Err(e) && (e.kind, e.message@) == pe,
                Ok(actions) => r matches Ok(p) && {
                    &&& p.trunk_branch@ == trunk
                    &&& p.original_branch@ == original_branch
                    &&& p.branch_name@ == name
                    &&& p.parent_branch_name@ == parent
                    &&& p.node_id == node.id
                    &&& previews_match(p.restack_plan@, actions)
                },
            }
        },
    }
}

/// Plans orphaning a tracked branch, given the branch checked out, the store and the local
/// branches.
pub fn plan(
    options: &OrphanOptions,
    original_branch: &str,
    state: &DigState,
    config: &DigConfig,
    facts: &RepoFacts,
) -> (r: Result<OrphanPlan, DigError>)
    ensures
        orphan_plan_matches(r, *options, original_branch@, state.nodes@, config.trunk_branch@, *facts),
{
    let requested = match &options.branch_name {
        Some(b) => Some(b.as_str()),
        None => None,
    };
    assert(opt_str_view(requested) == opt_view(options.branch_name));
    let name = resolve_name(original_branch, requested, "branch name")?;
    if str_equal(name.as_str(), config.trunk_branch.as_str()) {
        let mut message = to_owned_string("cannot orphan trunk branch ");
        push_quoted(&mut message, config.trunk_branch.as_str());
        return Err(DigError::new(ErrorKind::InvalidInput, message));
    }
    if !branch_exists(facts, name.as_str()) {
        return Err(named_failure(ErrorKind::NotFound, "branch ", name.as_str(), " does not exist"));
    }
    let node = match state.find_branch_by_name(name.as_str()) {
        Some(n) => n,
        None => {
            return Err(named_failure(ErrorKind::NotFound, "branch ", name.as_str(), " is not tracked by dig"));
        },
    };
    let parent = match BranchGraph::new(state).parent_branch_name(node, config.trunk_branch.as_str()) {
        Some(p) => p,
        None => {
            return Err(named_failure(ErrorKind::Other, "tracked parent for ", name.as_str(), " is missing from dig"));
        },
    };
    if !branch_exists(facts, parent.as_str()) {
        return Err(named_failure(ErrorKind::NotFound, "parent branch ", parent.as_str(), " does not exist"));
    }
    match require_local_descendants(state, node.id, name.as_str(), &facts.heads) {
        Ok(()) => {},
        Err(e) => {
            return Err(e);
        },
    }
    let base = RestackBaseTarget::local(parent.as_str());
    let actions = plan_after_branch_detach(state, facts, node.id, node.branch_name.as_str(), &base, &node.parent)?;
    let restack_plan = previews_for_actions(actions.as_slice());
    proof {
        assert forall|i: int| 0 <= i < actions@.len() implies #[trigger] action_views(actions@)[i] == actions@[i]@ by {}
    }
    Ok(
        OrphanPlan {
            trunk_branch: config.trunk_branch.clone(),
            original_branch: to_owned_string(original_branch),
            branch_name: name,
            parent_branch_name: parent,
            node_id: node.id,
            restack_plan,
        },
    )
}

/// An orphan is only planned for a tracked branch other than trunk whose branches below it all
/// exist locally.
pub proof fn lemma_orphan_needs_local_descendants(
    r: Result<OrphanPlan, DigError>,
    options: OrphanOptions,
    original_branch: Seq<char>,
    nodes: Seq<BranchNode>,
    trunk: Seq<char>,
    facts: RepoFacts,
)
    requires
        orphan_plan_matches(r, options, original_branch, nodes, trunk, facts),
        r is Ok,
    ensures
        orphan_target_spec(options, original_branch, nodes, trunk, facts) matches Ok((name, node, parent)) && name
            != trunk && !descendant_missing(nodes, facts.heads@, node.id) && r->Ok_0.node_id == node.id,
{
}

} // verus!
