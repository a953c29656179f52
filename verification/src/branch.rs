use vstd::prelude::*;

use crate::error::{quoted, DigError, ErrorKind, message_with_name};
use crate::layout::opt_view;
use crate::model::{node_named, BranchNode, DigConfig, DigState, ParentRef};
use crate::options::{AdoptOptions, BranchOptions};
use crate::restack::{
    find_head, head_lookup, merge_base, merge_base_spec, ref_oid, ref_oid_spec, PlanError, RepoFacts,
};
use crate::text::{push_str, str_equal, to_owned_string, trim, trim_spec};

verus! {

/// The text of an optional string slice.
pub open spec fn opt_str_view(s: Option<&str>) -> Option<Seq<char>> {
    match s {
        Some(x) => Some(x@),
        None => None,
    }
}

/// The failure for a name that is blank once trimmed.
pub open spec fn blank_name_error(what: Seq<char>) -> PlanError {
    (ErrorKind::InvalidInput, what + " cannot be empty"@)
}

/// A requested name, or the fallback when none was given, trimmed; blank names are refused.
pub open spec fn resolve_name_spec(fallback: Seq<char>, requested: Option<Seq<char>>, what: Seq<char>) -> Result<
    Seq<char>,
    PlanError,
> {
    let name = trim_spec(
        match requested {
            Some(r) => r,
            None => fallback,
        },
    );
    if name.len() == 0 {
        Err(blank_name_error(what))
    } else {
        Ok(name)
    }
}

pub(crate) fn blank_name_failure(what: &str) -> (e: DigError)
    ensures
        (e.kind, e.message@) == blank_name_error(what@),
{
    let mut message = to_owned_string(what);
    push_str(&mut message, " cannot be empty");
    DigError::new(ErrorKind::InvalidInput, message)
}

pub(crate) fn resolve_name(fallback: &str, requested: Option<&str>, what: &str) -> (r: Result<String, DigError>)
    ensures
        match r {
            Ok(s) => resolve_name_spec(fallback@, opt_str_view(requested), what@) == Ok::<Seq<char>, PlanError>(s@),
            Err(e) => resolve_name_spec(fallback@, opt_str_view(requested), what@) == Err::<Seq<char>, PlanError>(
                (e.kind, e.message@),
            ),
        },
{
    let chosen = match requested {
        Some(name) => name,
        None => fallback,
    };
    let name = trim(chosen);
    if name.as_str().unicode_len() == 0 {
        return Err(blank_name_failure(what));
    }
    Ok(name)
}

/// The parent branch of a new branch: the requested one, or else the current branch, trimmed.
pub fn resolve_parent_branch_name(current_branch: &str, requested_parent_branch: Option<&str>) -> (r: Result<
    String,
    DigError,
>)
    ensures
        match r {
            Ok(s) => resolve_name_spec(current_branch@, opt_str_view(requested_parent_branch), "parent branch name"@)
                == Ok::<Seq<char>, PlanError>(s@),
            Err(e) => resolve_name_spec(current_branch@, opt_str_view(requested_parent_branch), "parent branch name"@)
                == Err::<Seq<char>, PlanError>((e.kind, e.message@)),
        },
{
    resolve_name(current_branch, requested_parent_branch, "parent branch name")
}

/// How a parent branch is referenced: trunk by name, or a tracked branch by id.
pub open spec fn parent_ref_spec(nodes: Seq<BranchNode>, trunk: Seq<char>, parent: Seq<char>) -> Result<
    ParentRef,
    PlanError,
> {
    if parent == trunk {
        Ok(ParentRef::Trunk)
    } else {
        match node_named(nodes, parent) {
            Some(n) => Ok(ParentRef::Branch { node_id: n.id }),
            None => Err(
                (
                    ErrorKind::NotFound,
                    "parent branch "@ + quoted(parent) + " is not tracked by dig and does not match trunk "@
                        + quoted(trunk),
                ),
            ),
        }
    }
}

/// The reference to a parent branch: trunk, or the tracked branch of that name.
pub fn resolve_parent_ref(state: &DigState, config: &DigConfig, parent_branch_name: &str) -> (r: Result<
    ParentRef,
    DigError,
>)
    ensures
        match r {
            Ok(p) => parent_ref_spec(state.nodes@, config.trunk_branch@, parent_branch_name@) == Ok::<ParentRef, PlanError>(p),
            Err(e) => parent_ref_spec(state.nodes@, config.trunk_branch@, parent_branch_name@) == Err::<ParentRef, PlanError>(
                (e.kind, e.message@),
            ),
        },
{
    if str_equal(parent_branch_name, config.trunk_branch.as_str()) {
        return Ok(ParentRef::Trunk);
    }
    match state.find_branch_by_name(parent_branch_name) {
        Some(node) => Ok(ParentRef::Branch { node_id: node.id }),
        None => {
            let mut message = message_with_name("parent branch ", parent_branch_name, " is not tracked by dig and does not match trunk ");
            crate::error::push_quoted(&mut message, config.trunk_branch.as_str());
            Err(DigError::new(ErrorKind::NotFound, message))
        },
    }
}

/// Whether a local branch of that name exists.
pub open spec fn branch_exists_spec(facts: RepoFacts, name: Seq<char>) -> bool {
    head_lookup(facts.heads@, name) is Some
}

pub(crate) fn branch_exists(facts: &RepoFacts, name: &str) -> (r: bool)
    ensures
        r == branch_exists_spec(*facts, name@),
{
    find_head(&facts.heads, name).is_some()
}

/// A refusal naming one branch: `head 'name' tail`.
pub open spec fn named_error(kind: ErrorKind, head: Seq<char>, name: Seq<char>, tail: Seq<char>) -> PlanError {
    (kind, head + quoted(name) + tail)
}

pub(crate) fn named_failure(kind: ErrorKind, head: &str, name: &str, tail: &str) -> (e: DigError)
    ensures
        (e.kind, e.message@) == named_error(kind, head@, name@, tail@),
{
    DigError::new(kind, message_with_name(head, name, tail))
}

/// The refusal of a branch listed as its own parent.
pub open spec fn self_parent_error() -> PlanError {
    (ErrorKind::InvalidInput, "branch cannot list itself as its parent"@)
}

/// What creating a branch records, as plain values.
pub struct NewBranchView {
    pub branch_name: Seq<char>,
    pub parent: ParentRef,
    pub parent_branch_name: Seq<char>,
    pub parent_head_oid: Seq<char>,
}

/// The checks of the branch command and what it records, given the branch checked out, the
/// store and the local branches.
pub open spec fn new_branch_spec(
    options: BranchOptions,
    current_branch: Seq<char>,
    nodes: Seq<BranchNode>,
    trunk: Seq<char>,
    facts: RepoFacts,
) -> Result<NewBranchView, PlanError> {
    let name = trim_spec(options.name@);
    if name.len() == 0 {
        Err(blank_name_error("branch name"@))
    } else if branch_exists_spec(facts, name) {
        Err(named_error(ErrorKind::AlreadyExists, "branch "@, name, " already exists"@))
    } else if node_named(nodes, name) is Some {
        Err(named_error(ErrorKind::AlreadyExists, "branch "@, name, " is already tracked by dig"@))
    } else {
        match resolve_name_spec(current_branch, opt_view(options.parent_branch_name), "parent branch name"@) {
            Err(e) => Err(e),
            Ok(parent_name) => if parent_name == name {
                Err(self_parent_error())
            } else if !branch_exists_spec(facts, parent_name) {
                Err(named_error(ErrorKind::NotFound, "parent branch "@, parent_name, " does not exist"@))
            } else {
                match parent_ref_spec(nodes, trunk, parent_name) {
                    Err(e) => Err(e),
                    Ok(parent) => match ref_oid_spec(facts.heads@, parent_name) {
                        Err(e) => Err(e),
                        Ok(oid) => Ok(
                            NewBranchView {
                                branch_name: name,
                                parent,
                                parent_branch_name: parent_name,
                                parent_head_oid: oid,
                            },
                        ),
                    },
                }
            },
        }
    }
}

/// The node the branch command records for a new branch, after its checks; `id` and `now`
/// are the fresh id and the time of creation.
pub fn plan_new_branch(
    options: &BranchOptions,
    current_branch: &str,
    state: &DigState,
    config: &DigConfig,
    facts: &RepoFacts,
    id: u128,
    now: u64,
) -> (r: Result<BranchNode, DigError>)
    ensures
        match r {
            Ok(n) => {
                &&& new_branch_spec(*options, current_branch@, state.nodes@, config.trunk_branch@, *facts) matches Ok(v)
                &&& n.id == id
                &&& n.branch_name@ == v.branch_name
                &&& n.parent == v.parent
                &&& n.base_ref@ == v.parent_branch_name
                &&& n.fork_point_oid@ == v.parent_head_oid
                &&& n.head_oid_at_creation@ == v.parent_head_oid
                &&& n.created_at_unix_secs == now
                &&& n.pull_request is None
                &&& !n.archived
            },
            Err(e) => new_branch_spec(*options, current_branch@, state.nodes@, config.trunk_branch@, *facts)
                == Err::<NewBranchView, PlanError>((e.kind, e.message@)),
        },
{
    let name = trim(options.name.as_str());
    if name.as_str().unicode_len() == 0 {
        return Err(blank_name_failure("branch name"));
    }
    if branch_exists(facts, name.as_str()) {
        return Err(named_failure(ErrorKind::AlreadyExists, "branch ", name.as_str(), " already exists"));
    }
    if state.find_branch_by_name(name.as_str()).is_some() {
        return Err(named_failure(ErrorKind::AlreadyExists, "branch ", name.as_str(), " is already tracked by dig"));
    }
    let requested = match &options.parent_branch_name {
        Some(p) => Some(p.as_str()),
        None => None,
    };
    assert(opt_str_view(requested) == opt_view(options.parent_branch_name));
    let parent_name = resolve_parent_branch_name(current_branch, requested)?;
    if str_equal(parent_name.as_str(), name.as_str()) {
        return Err(DigError::new(ErrorKind::InvalidInput, to_owned_string("branch cannot list itself as its parent")));
    }
    if !branch_exists(facts, parent_name.as_str()) {
        return Err(named_failure(ErrorKind::NotFound, "parent branch ", parent_name.as_str(), " does not exist"));
    }
    let parent = resolve_parent_ref(state, config, parent_name.as_str())?;
    let head = ref_oid(facts, parent_name.as_str())?;
    Ok(
        BranchNode {
            id,
            branch_name: name,
            parent,
            base_ref: parent_name,
            fork_point_oid: head.clone(),
            head_oid_at_creation: head,
            created_at_unix_secs: now,
            pull_request: None,
            archived: false,
        },
    )
}

} // verus!
