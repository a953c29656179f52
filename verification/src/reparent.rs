use vstd::prelude::*;

use crate::branch::{
    blank_name_error, blank_name_failure, branch_exists, branch_exists_spec, named_error, named_failure,
    opt_str_view, parent_ref_spec, resolve_name, resolve_name_spec, resolve_parent_ref, self_parent_error,
};
use crate::error::{message_with_name, push_quoted, quoted, DigError, ErrorKind};
use crate::graph::{descendant_missing, ids_contain, reachable, refused_for_missing, require_local_descendants, BranchGraph};
use crate::layout::opt_view;
use crate::model::{node_named, parent_name_spec, BranchNode, DigConfig, DigState, ParentRef};
use crate::options::ReparentOptions;
use crate::restack::{
    action_views, plan_after_branch_reparent, previews_for_actions, previews_match, reparent_plan, PlanError,
    RepoFacts, RestackBaseTarget, RestackPreview,
};
use crate::text::{str_equal, to_owned_string, trim, trim_spec};

verus! {

/// What moving a tracked branch under a new parent will do.
#[derive(Debug, Clone, PartialEq, Eq)]
pub struct ReparentPlan {
    pub original_branch: String,
    pub branch_name: String,
    pub current_parent_branch_name: String,
    pub parent_branch_name: String,
    pub node_id: u128,
    pub current_parent: ParentRef,
    pub new_parent: ParentRef,
    pub restack_plan: Vec<RestackPreview>,
}

/// The checks of the reparent command before its descendants are looked at: the branch it
/// moves, its tracked node, the new parent's name and the current parent's name.
pub open spec fn reparent_target_spec(
    options: ReparentOptions,
    original_branch: Seq<char>,
    nodes: Seq<BranchNode>,
    trunk: Seq<char>,
    facts: RepoFacts,
) -> Result<(Seq<char>, BranchNode, Seq<char>, Seq<char>), PlanError> {
    match resolve_name_spec(original_branch, opt_view(options.branch_name), "branch name"@) {
        Err(e) => Err(e),
        Ok(name) => {
            let parent = trim_spec(options.parent_branch_name@);
            if parent.len() == 0 {
                Err(blank_name_error("parent branch name"@))
            } else if name == trunk {
                Err((ErrorKind::InvalidInput, "cannot reparent trunk branch "@ + quoted(trunk)))
            } else if name == parent {
                Err(self_parent_error())
            } else if !branch_exists_spec(facts, name) {
                Err(named_error(ErrorKind::NotFound, "branch "@, name, " does not exist"@))
            } else {
                match node_named(nodes, name) {
                    None => Err(named_error(ErrorKind::NotFound, "branch "@, name, " is not tracked by dagger"@)),
                    Some(node) => if !branch_exists_spec(facts, parent) {
                        Err(named_error(ErrorKind::NotFound, "parent branch "@, parent, " does not exist"@))
                    } else {
                        match parent_name_spec(nodes, node.parent, trunk) {
                            None => Err(
                                named_error(ErrorKind::Other, "tracked parent for "@, name, " is missing from dagger"@),
                            ),
                            Some(current) => if !branch_exists_spec(facts, current) {
                                Err(named_error(ErrorKind::NotFound, "current parent branch "@, current, " does not exist"@))
                            } else if current == parent {
                                Err(
                                    (
                                        ErrorKind::InvalidInput,
                                        "branch "@ + quoted(name) + " is already parented to "@ + quoted(parent),
                                    ),
                                )
                            } else {
                                Ok((name, node, parent, current))
                            },
                        }
                    },
                }
            }
        },
    }
}

/// Whether the new parent reference points at a branch below the branch with id `id`.
pub open spec fn onto_descendant(nodes: Seq<BranchNode>, id: u128, new_parent: ParentRef) -> bool {
    match new_parent {
        ParentRef::Trunk => false,
        ParentRef::Branch { node_id } => node_id != id && reachable(nodes, id, node_id),
    }
}

/// Whether `r` is what planning a reparent gives: a failed check is its error, missing
/// descendants are named, a move under its own descendant is refused, and otherwise the branch
/// goes onto its new parent and its descendants follow it.
pub open spec fn reparent_plan_matches(
    r: Result<ReparentPlan, DigError>,
    options: ReparentOptions,
    original_branch: Seq<char>,
    nodes: Seq<BranchNode>,
    trunk: Seq<char>,
    facts: RepoFacts,
) -> bool {
    match reparent_target_spec(options, original_branch, nodes, trunk, facts) {
        Err(pe) => r matches Err(e) && (e.kind, e.message@) == pe,
        Ok((name, node, parent, current)) => if descendant_missing(nodes, facts.heads@, node.id) {
            r matches Err(e) && refused_for_missing(e, nodes, facts.heads@, node.id, name)
        } else {
            match parent_ref_spec(nodes, trunk, parent) {
                Err(pe) => r matches Err(e) && (e.kind, e.message@) == pe,
                Ok(new_parent) => if onto_descendant(nodes, node.id, new_parent) {
                    r matches Err(e) && e.kind == ErrorKind::InvalidInput && e.message@ == "cannot reparent "@
                        + quoted(name) + " onto descendant "@ + quoted(parent)
                } else {
                    match reparent_plan(
                        nodes,
                        facts.heads@,
                        facts.merge_bases@,
                        node.id,
                        node.branch_name@,
                        current,
                        (parent, None),
                        new_parent,
                    ) {
                        Err(pe) => r matches Err(e) && (e.kind, e.message@) == pe,
                        Ok(actions) => r matches Ok(p) && {
                            &&& p.original_branch@ == original_branch
                            &&& p.branch_name@ == name
                            &&& p.current_parent_branch_name@ == current
                            &&& p.parent_branch_name@ == parent
                            &&& p.node_id == node.id
                            &&& p.current_parent == node.parent
                            &&& p.new_parent == new_parent
                            &&& previews_match(p.restack_plan@, actions)
                        },
                    }
                },
            }
        },
    }
}

/// Plans moving a tracked branch under a new parent, given the branch checked out, the store
/// and the local branches.
pub fn plan(
    options: &ReparentOptions,
    original_branch: &str,
    state: &DigState,
    config: &DigConfig,
    facts: &RepoFacts,
) -> (r: Result<ReparentPlan, DigError>)
    ensures
        reparent_plan_matches(r, *options, original_branch@, state.nodes@, config.trunk_branch@, *facts),
{
    let requested = match &options.branch_name {
        Some(b) => Some(b.as_str()),
        None => None,
    };
    assert(opt_str_view(requested) == opt_view(options.branch_name));
    let name = resolve_name(original_branch, requested, "branch name")?;
    let parent = trim(options.parent_branch_name.as_str());
    if parent.as_str().unicode_len() == 0 {
        return Err(blank_name_failure("parent branch name"));
    }
    if str_equal(name.as_str(), config.trunk_branch.as_str()) {
        let mut message = to_owned_string("cannot reparent trunk branch ");
        push_quoted(&mut message, config.trunk_branch.as_str());
        return Err(DigError::new(ErrorKind::InvalidInput, message));
    }
    if str_equal(name.as_str(), parent.as_str()) {
        return Err(DigError::new(ErrorKind::InvalidInput, to_owned_string("branch cannot list itself as its parent")));
    }
    if !branch_exists(facts, name.as_str()) {
        return Err(named_failure(ErrorKind::NotFound, "branch ", name.as_str(), " does not exist"));
    }
    let node = match state.find_branch_by_name(name.as_str()) {
        Some(n) => n,
        None => {
            return Err(named_failure(ErrorKind::NotFound, "branch ", name.as_str(), " is not tracked by dagger"));
        },
    };
    if !branch_exists(facts, parent.as_str()) {
        return Err(named_failure(ErrorKind::NotFound, "parent branch ", parent.as_str(), " does not exist"));
    }
    let graph = BranchGraph::new(state);
    let current = match graph.parent_branch_name(node, config.trunk_branch.as_str()) {
        Some(p) => p,
        None => {
            return Err(named_failure(ErrorKind::Other, "tracked parent for ", name.as_str(), " is missing from dagger"));
        },
    };
    if !branch_exists(facts, current.as_str()) {
        return Err(named_failure(ErrorKind::NotFound, "current parent branch ", current.as_str(), " does not exist"));
    }
    if str_equal(current.as_str(), parent.as_str()) {
        let mut message = message_with_name("branch ", name.as_str(), " is already parented to ");
        push_quoted(&mut message, parent.as_str());
        return Err(DigError::new(ErrorKind::InvalidInput, message));
    }
    match require_local_descendants(state, node.id, name.as_str(), &facts.heads) {
        Ok(()) => {},
        Err(e) => {
            return Err(e);
        },
    }
    let new_parent = resolve_parent_ref(state, config, parent.as_str())?;
    if let ParentRef::Branch { node_id: parent_id } = new_parent {
        if ids_contain(&graph.active_descendant_ids(node.id), parent_id) {
            let mut message = message_with_name("cannot reparent ", name.as_str(), " onto descendant ");
            push_quoted(&mut message, parent.as_str());
            return Err(DigError::new(ErrorKind::InvalidInput, message));
        }
    }
    let base = RestackBaseTarget::local(parent.as_str());
    let actions = plan_after_branch_reparent(
        state,
        facts,
        node.id,
        node.branch_name.as_str(),
        current.as_str(),
        &base,
        &new_parent,
    )?;
    let restack_plan = previews_for_actions(actions.as_slice());
    proof {
        assert forall|i: int| 0 <= i < actions@.len() implies #[trigger] action_views(actions@)[i] == actions@[i]@ by {}
    }
    Ok(
        ReparentPlan {
            original_branch: to_owned_string(original_branch),
            branch_name: name,
            current_parent_branch_name: current,
            parent_branch_name: parent,
            node_id: node.id,
            current_parent: node.parent,
            new_parent,
            restack_plan,
        },
    )
}

/// A branch is only moved under a parent that is not below it, other than its current parent,
/// and only when the branches below it all exist locally.
pub proof fn lemma_reparent_never_onto_descendant(
    r: Result<ReparentPlan, DigError>,
    options: ReparentOptions,
    original_branch: Seq<char>,
    nodes: Seq<BranchNode>,
    trunk: Seq<char>,
    facts: RepoFacts,
)
    requires
        reparent_plan_matches(r, options, original_branch, nodes, trunk, facts),
        r is Ok,
    ensures
        !onto_descendant(nodes, r->Ok_0.node_id, r->Ok_0.new_parent),
        r->Ok_0.parent_branch_name@ != r->Ok_0.current_parent_branch_name@,
        r->Ok_0.branch_name@ != r->Ok_0.parent_branch_name@,
        !descendant_missing(nodes, facts.heads@, r->Ok_0.node_id),
        parent_ref_spec(nodes, trunk, r->Ok_0.parent_branch_name@) == Ok::<ParentRef, PlanError>(
            r->Ok_0.new_parent,
        ),
{
}

} // verus!
