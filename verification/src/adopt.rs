use vstd::prelude::*;

use crate::branch::{
    blank_name_error, blank_name_failure, branch_exists, branch_exists_spec, named_error, named_failure,
    opt_str_view, parent_ref_spec, resolve_name, resolve_name_spec, resolve_parent_ref, self_parent_error,
};
use crate::error::{DigError, ErrorKind};
use crate::layout::opt_view;
use crate::model::{node_named, BranchNode, DigConfig, DigState, ParentRef};
use crate::options::AdoptOptions;
use crate::restack::{
    base_view, merge_base, merge_base_spec, ref_oid, ref_oid_spec, PlanError, RepoFacts, RestackAction,
    RestackBaseTarget,
};
use crate::text::{str_equal, to_owned_string, trim, trim_spec};

verus! {

/// The branch an adopt acts on: the requested one, or else the branch checked out, trimmed.
pub fn resolve_branch_name(original_branch: &str, requested_branch_name: Option<&str>) -> (r: Result<
    String,
    DigError,
>)
    ensures
        match r {
            Ok(s) => resolve_name_spec(original_branch@, opt_str_view(requested_branch_name), "branch name"@)
                == Ok::<Seq<char>, PlanError>(s@),
            Err(e) => resolve_name_spec(original_branch@, opt_str_view(requested_branch_name), "branch name"@)
                == Err::<Seq<char>, PlanError>((e.kind, e.message@)),
        },
{
    resolve_name(original_branch, requested_branch_name, "branch name")
}

/// What adopting an untracked branch under a tracked parent will do.
#[derive(Debug, Clone, PartialEq, Eq)]
pub struct AdoptPlan {
    pub trunk_branch: String,
    pub original_branch: String,
    pub branch_name: String,
    pub parent_branch_name: String,
    pub parent: ParentRef,
    pub old_upstream_oid: String,
    pub requires_rebase: bool,
}

/// An adopt plan as plain values.
pub struct AdoptPlanView {
    pub trunk_branch: Seq<char>,
    pub original_branch: Seq<char>,
    pub branch_name: Seq<char>,
    pub parent_branch_name: Seq<char>,
    pub parent: ParentRef,
    pub old_upstream_oid: Seq<char>,
    pub requires_rebase: bool,
}

impl View for AdoptPlan {
    type V = AdoptPlanView;

    open spec fn view(&self) -> AdoptPlanView {
        AdoptPlanView {
            trunk_branch: self.trunk_branch@,
            original_branch: self.original_branch@,
            branch_name: self.branch_name@,
            parent_branch_name: self.parent_branch_name@,
            parent: self.parent,
            old_upstream_oid: self.old_upstream_oid@,
            requires_rebase: self.requires_rebase,
        }
    }
}

/// The checks of the adopt command and its plan, given the branch checked out, the store
/// and the local branches.
pub open spec fn adopt_plan_spec(
    options: AdoptOptions,
    original_branch: Seq<char>,
    nodes: Seq<BranchNode>,
    trunk: Seq<char>,
    facts: RepoFacts,
) -> Result<AdoptPlanView, PlanError> {
    match resolve_name_spec(original_branch, opt_view(options.branch_name), "branch name"@) {
        Err(e) => Err(e),
        Ok(name) => {
            let parent_name = trim_spec(options.parent_branch_name@);
            if parent_name.len() == 0 {
                Err(blank_name_error("parent branch name"@))
            } else if name == trunk {
                Err((ErrorKind::InvalidInput, "cannot adopt trunk branch "@ + crate::error::quoted(trunk)))
            } else if name == parent_name {
                Err(self_parent_error())
            } else if !branch_exists_spec(facts, name) {
                Err(named_error(ErrorKind::NotFound, "branch "@, name, " does not exist"@))
            } else if node_named(nodes, name) is Some {
                Err(named_error(ErrorKind::AlreadyExists, "branch "@, name, " is already tracked by dig"@))
            } else if !branch_exists_spec(facts, parent_name) {
                Err(named_error(ErrorKind::NotFound, "parent branch "@, parent_name, " does not exist"@))
            } else {
                match parent_ref_spec(nodes, trunk, parent_name) {
                    Err(e) => Err(e),
                    Ok(parent) => match merge_base_spec(facts.merge_bases@, parent_name, name) {
                        Err(e) => Err(e),
                        Ok(old_upstream) => match ref_oid_spec(facts.heads@, parent_name) {
                            Err(e) => Err(e),
                            Ok(parent_head) => Ok(
                                AdoptPlanView {
                                    trunk_branch: trunk,
                                    original_branch,
                                    branch_name: name,
                                    parent_branch_name: parent_name,
                                    parent,
                                    old_upstream_oid: old_upstream,
                                    requires_rebase: old_upstream != parent_head,
                                },
                            ),
                        },
                    },
                }
            }
        },
    }
}

/// Plans adopting an untracked local branch under a tracked parent, given the branch checked
/// out, the store and the local branches.
pub fn plan(
    options: &AdoptOptions,
    original_branch: &str,
    state: &DigState,
    config: &DigConfig,
    facts: &RepoFacts,
) -> (r: Result<AdoptPlan, DigError>)
    ensures
        match r {
            Ok(p) => adopt_plan_spec(*options, original_branch@, state.nodes@, config.trunk_branch@, *facts)
                == Ok::<AdoptPlanView, PlanError>(p@),
            Err(e) => adopt_plan_spec(*options, original_branch@, state.nodes@, config.trunk_branch@, *facts)
                == Err::<AdoptPlanView, PlanError>((e.kind, e.message@)),
        },
{
    let requested = match &options.branch_name {
        Some(b) => Some(b.as_str()),
        None => None,
    };
    assert(opt_str_view(requested) == opt_view(options.branch_name));
    let name = resolve_branch_name(original_branch, requested)?;
    let parent_name = trim(options.parent_branch_name.as_str());
    if parent_name.as_str().unicode_len() == 0 {
        return Err(blank_name_failure("parent branch name"));
    }
    if str_equal(name.as_str(), config.trunk_branch.as_str()) {
        let mut message = to_owned_string("cannot adopt trunk branch ");
        crate::error::push_quoted(&mut message, config.trunk_branch.as_str());
        return Err(DigError::new(ErrorKind::InvalidInput, message));
    }
    if str_equal(name.as_str(), parent_name.as_str()) {
        return Err(DigError::new(ErrorKind::InvalidInput, to_owned_string("branch cannot list itself as its parent")));
    }
    if !branch_exists(facts, name.as_str()) {
        return Err(named_failure(ErrorKind::NotFound, "branch ", name.as_str(), " does not exist"));
    }
    if state.find_branch_by_name(name.as_str()).is_some() {
        return Err(named_failure(ErrorKind::AlreadyExists, "branch ", name.as_str(), " is already tracked by dig"));
    }
    if !branch_exists(facts, parent_name.as_str()) {
        return Err(named_failure(ErrorKind::NotFound, "parent branch ", parent_name.as_str(), " does not exist"));
    }
    let parent = resolve_parent_ref(state, config, parent_name.as_str())?;
    let old_upstream = merge_base(facts, parent_name.as_str(), name.as_str())?;
    let parent_head = ref_oid(facts, parent_name.as_str())?;
    let requires_rebase = !str_equal(old_upstream.as_str(), parent_head.as_str());
    Ok(
        AdoptPlan {
            trunk_branch: config.trunk_branch.clone(),
            original_branch: to_owned_string(original_branch),
            branch_name: name,
            parent_branch_name: parent_name,
            parent,
            old_upstream_oid: old_upstream,
            requires_rebase,
        },
    )
}

/// Before an adopt is carried out, the store is checked again: the branch must still be
/// untracked and its parent must still resolve to what was planned.
pub open spec fn adopt_recheck_spec(plan: AdoptPlanView, nodes: Seq<BranchNode>, trunk: Seq<char>) -> Result<
    (),
    PlanError,
> {
    if node_named(nodes, plan.branch_name) is Some {
        Err(named_error(ErrorKind::AlreadyExists, "branch "@, plan.branch_name, " is already tracked by dig"@))
    } else {
        match parent_ref_spec(nodes, trunk, plan.parent_branch_name) {
            Err(e) => Err(e),
            Ok(p) => if p != plan.parent {
                Err(
                    named_error(
                        ErrorKind::Other,
                        "tracked parent for "@,
                        plan.parent_branch_name,
                        " changed while planning adopt"@,
                    ),
                )
            } else {
                Ok(())
            },
        }
    }
}

/// Checks the store again before an adopt is carried out.
pub fn recheck_before_apply(plan: &AdoptPlan, state: &DigState, config: &DigConfig) -> (r: Result<(), DigError>)
    ensures
        match r {
            Ok(()) => adopt_recheck_spec(plan@, state.nodes@, config.trunk_branch@) is Ok,
            Err(e) => adopt_recheck_spec(plan@, state.nodes@, config.trunk_branch@) == Err::<(), PlanError>(
                (e.kind, e.message@),
            ),
        },
{
    if state.find_branch_by_name(plan.branch_name.as_str()).is_some() {
        return Err(
            named_failure(ErrorKind::AlreadyExists, "branch ", plan.branch_name.as_str(), " is already tracked by dig"),
        );
    }
    let parent = resolve_parent_ref(state, config, plan.parent_branch_name.as_str())?;
    if parent != plan.parent {
        return Err(
            named_failure(
                ErrorKind::Other,
                "tracked parent for ",
                plan.parent_branch_name.as_str(),
                " changed while planning adopt",
            ),
        );
    }
    Ok(())
}

/// The rebase that moves an adopted branch onto its parent, from its merge base with it; the
/// branch is not tracked yet, so it has no id and no parent change.
pub fn adopt_rebase_action(plan: &AdoptPlan) -> (a: RestackAction)
    ensures
        a.node_id == 0,
        a.branch_name@ == plan.branch_name@,
        a.old_upstream_branch_name@ == plan.parent_branch_name@,
        a.old_upstream_oid@ == plan.old_upstream_oid@,
        base_view(a.new_base) == (plan.parent_branch_name@, None::<Seq<char>>),
        a.new_parent is None,
{
    RestackAction {
        node_id: 0,
        branch_name: plan.branch_name.clone(),
        old_upstream_branch_name: plan.parent_branch_name.clone(),
        old_upstream_oid: plan.old_upstream_oid.clone(),
        new_base: RestackBaseTarget::local(plan.parent_branch_name.as_str()),
        new_parent: None,
    }
}

/// The entry an adopted branch gets: under its planned parent, based on the parent's name, forked
/// at the parent's head and created at its own head.
pub fn adopted_node(
    branch_name: &str,
    parent_branch_name: &str,
    parent: ParentRef,
    id: u128,
    parent_head_oid: &str,
    branch_head_oid: &str,
    created_at_unix_secs: u64,
) -> (n: BranchNode)
    ensures
        n.id == id,
        n.branch_name@ == branch_name@,
        n.parent == parent,
        n.base_ref@ == parent_branch_name@,
        n.fork_point_oid@ == parent_head_oid@,
        n.head_oid_at_creation@ == branch_head_oid@,
        n.created_at_unix_secs == created_at_unix_secs,
        n.pull_request is None,
        !n.archived,
{
    BranchNode {
        id,
        branch_name: to_owned_string(branch_name),
        parent,
        base_ref: to_owned_string(parent_branch_name),
        fork_point_oid: to_owned_string(parent_head_oid),
        head_oid_at_creation: to_owned_string(branch_head_oid),
        created_at_unix_secs,
        pull_request: None,
        archived: false,
    }
}

/// The failure when an adopt could not check out the original branch again.
pub fn restore_failure_message(original_branch: &str) -> (r: String)
    ensures
        r@ == "adopt completed, but failed to return to "@ + crate::error::quoted(original_branch@),
{
    let mut r = to_owned_string("adopt completed, but failed to return to ");
    crate::error::push_quoted(&mut r, original_branch);
    r
}

} // verus!
