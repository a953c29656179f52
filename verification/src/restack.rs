use vstd::prelude::*;

use crate::error::{message_with_name, quoted, DigError, ErrorKind};
use crate::graph::{children_spec, BranchGraph};
use crate::model::{
    id_position, lemma_id_position_is_first, node_with_id, BranchNode, DigState, ParentRef,
};
use crate::text::{str_equal, to_owned_string};

verus! {

/// The branch a restacked branch is rebased onto: its logical name, and the ref handed to the
/// rebase where that differs from the name.
#[derive(Debug, Clone, PartialEq, Eq)]
pub struct RestackBaseTarget {
    pub branch_name: String,
    pub rebase_ref: Option<String>,
}

/// A base target as plain values: its name and its rebase ref, if any.
pub open spec fn base_view(b: RestackBaseTarget) -> (Seq<char>, Option<Seq<char>>) {
    (
        b.branch_name@,
        match b.rebase_ref {
            Some(r) => Some(r@),
            None => None,
        },
    )
}

impl RestackBaseTarget {
    /// A base that is rebased onto under its own name.
    pub fn local(branch_name: &str) -> (t: RestackBaseTarget)
        ensures
            base_view(t) == (branch_name@, None::<Seq<char>>),
    {
        RestackBaseTarget { branch_name: to_owned_string(branch_name), rebase_ref: None }
    }

    /// A base named `branch_name` that is rebased onto `rebase_ref`.
    pub fn with_rebase_ref(branch_name: &str, rebase_ref: &str) -> (t: RestackBaseTarget)
        ensures
            base_view(t) == (branch_name@, Some(rebase_ref@)),
    {
        RestackBaseTarget {
            branch_name: to_owned_string(branch_name),
            rebase_ref: Some(to_owned_string(rebase_ref)),
        }
    }

    /// The ref the rebase goes onto: the rebase ref if there is one, else the name.
    pub fn rebase_ref(&self) -> (r: &str)
        ensures
            r@ == match self.rebase_ref {
                Some(s) => s@,
                None => self.branch_name@,
            },
    {
        match &self.rebase_ref {
            Some(s) => s.as_str(),
            None => self.branch_name.as_str(),
        }
    }

    /// A copy of this target.
    pub fn duplicate(&self) -> (t: RestackBaseTarget)
        ensures
            base_view(t) == base_view(*self),
    {
        RestackBaseTarget {
            branch_name: self.branch_name.clone(),
            rebase_ref: match &self.rebase_ref {
                Some(s) => Some(s.clone()),
                None => None,
            },
        }
    }
}

/// One planned rebase: the branch, the upstream it currently sits on, and where it goes.
#[derive(Debug, Clone, PartialEq, Eq)]
pub struct RestackAction {
    pub node_id: u128,
    pub branch_name: String,
    pub old_upstream_branch_name: String,
    pub old_upstream_oid: String,
    pub new_base: RestackBaseTarget,
    pub new_parent: Option<ParentRef>,
}

/// A planned rebase as plain values.
pub struct ActionView {
    pub node_id: u128,
    pub branch_name: Seq<char>,
    pub old_upstream_branch_name: Seq<char>,
    pub old_upstream_oid: Seq<char>,
    pub new_base: (Seq<char>, Option<Seq<char>>),
    pub new_parent: Option<ParentRef>,
}

impl View for RestackAction {
    type V = ActionView;

    open spec fn view(&self) -> ActionView {
        ActionView {
            node_id: self.node_id,
            branch_name: self.branch_name@,
            old_upstream_branch_name: self.old_upstream_branch_name@,
            old_upstream_oid: self.old_upstream_oid@,
            new_base: base_view(self.new_base),
            new_parent: self.new_parent,
        }
    }
}

/// The views of a sequence of planned rebases.
pub open spec fn action_views(v: Seq<RestackAction>) -> Seq<ActionView> {
    v.map_values(|a: RestackAction| a@)
}

/// What a branch listing shows of a planned rebase.
#[derive(Debug, Clone, PartialEq, Eq)]
pub struct RestackPreview {
    pub branch_name: String,
    pub onto_branch: String,
    pub parent_changed: bool,
}

impl RestackPreview {
    /// A copy of this preview.
    pub fn duplicate(&self) -> (p: RestackPreview)
        ensures
            p.branch_name@ == self.branch_name@,
            p.onto_branch@ == self.onto_branch@,
            p.parent_changed == self.parent_changed,
    {
        RestackPreview {
            branch_name: self.branch_name.clone(),
            onto_branch: self.onto_branch.clone(),
            parent_changed: self.parent_changed,
        }
    }
}

/// The parent change that a finished rebase recorded.
#[derive(Debug, Clone, PartialEq, Eq)]
pub struct ParentChange {
    pub branch_id: u128,
    pub branch_name: String,
    pub old_parent: ParentRef,
    pub new_parent: ParentRef,
    pub old_base_ref: String,
    pub new_base_ref: String,
}

/// A local branch and the commit its head points at.
#[derive(Debug, Clone, PartialEq, Eq)]
pub struct LocalBranchHead {
    pub branch_name: String,
    pub head_oid: String,
}

/// The merge base of two refs.
#[derive(Debug, Clone, PartialEq, Eq)]
pub struct MergeBaseFact {
    pub left: String,
    pub right: String,
    pub oid: String,
}

/// What planning reads of the repository: the local branch heads, and the merge bases it asks
/// for.
#[derive(Debug, Clone, PartialEq, Eq)]
pub struct RepoFacts {
    pub heads: Vec<LocalBranchHead>,
    pub merge_bases: Vec<MergeBaseFact>,
}

/// The head of the first local branch with the given name.
pub open spec fn head_lookup(heads: Seq<LocalBranchHead>, name: Seq<char>) -> Option<Seq<char>>
    decreases heads.len(),
{
    if heads.len() == 0 {
        None
    } else if heads[0].branch_name@ == name {
        Some(heads[0].head_oid@)
    } else {
        head_lookup(heads.drop_first(), name)
    }
}

/// The first recorded merge base of `left` and `right`.
pub open spec fn merge_base_lookup(facts: Seq<MergeBaseFact>, left: Seq<char>, right: Seq<char>) -> Option<
    Seq<char>,
>
    decreases facts.len(),
{
    if facts.len() == 0 {
        None
    } else if facts[0].left@ == left && facts[0].right@ == right {
        Some(facts[0].oid@)
    } else {
        merge_base_lookup(facts.drop_first(), left, right)
    }
}

/// A planning failure as plain values.
pub type PlanError = (ErrorKind, Seq<char>);

/// The failure of a lookup that git could not answer.
pub open spec fn git_failed() -> PlanError {
    (ErrorKind::Other, "git command failed"@)
}

/// The failure of a walk whose parent links loop.
pub open spec fn cycle_error() -> PlanError {
    (ErrorKind::InvalidData, "tracked branches form a parent cycle"@)
}

/// The commit a local branch points at.
pub open spec fn ref_oid_spec(heads: Seq<LocalBranchHead>, name: Seq<char>) -> Result<Seq<char>, PlanError> {
    match head_lookup(heads, name) {
        Some(oid) => Ok(oid),
        None => Err(git_failed()),
    }
}

/// The merge base of two refs.
pub open spec fn merge_base_spec(facts: Seq<MergeBaseFact>, left: Seq<char>, right: Seq<char>) -> Result<
    Seq<char>,
    PlanError,
> {
    match merge_base_lookup(facts, left, right) {
        Some(oid) => Ok(oid),
        None => Err(git_failed()),
    }
}

/// The active tracked branch with the given id, if it still exists locally.
pub open spec fn load_active(nodes: Seq<BranchNode>, heads: Seq<LocalBranchHead>, id: u128) -> Result<
    BranchNode,
    PlanError,
> {
    match node_with_id(nodes, id) {
        None => Err((ErrorKind::NotFound, "tracked descendant branch was not found"@)),
        Some(n) => if head_lookup(heads, n.branch_name@) is Some {
            Ok(n)
        } else {
            Err(
                (
                    ErrorKind::NotFound,
                    "tracked descendant branch "@ + quoted(n.branch_name@)
                        + " no longer exists locally"@,
                ),
            )
        },
    }
}

/// The planned rebase of branch `id` onto `up_name` at its new head, from `up_oid`, with no
/// parent change.
pub open spec fn follow_action(id: u128, name: Seq<char>, up_name: Seq<char>, up_oid: Seq<char>) -> ActionView {
    ActionView {
        node_id: id,
        branch_name: name,
        old_upstream_branch_name: up_name,
        old_upstream_oid: up_oid,
        new_base: (up_name, None),
        new_parent: None,
    }
}

/// The rebases after the upstream `up_name` of branch `id` moved away from `up_oid`: the
/// branch follows its upstream, and each active descendant, depth first in store order,
/// follows its parent from that parent's current head.
pub open spec fn advance_walk(
    nodes: Seq<BranchNode>,
    heads: Seq<LocalBranchHead>,
    id: u128,
    up_name: Seq<char>,
    up_oid: Seq<char>,
    fuel: nat,
) -> Result<Seq<ActionView>, PlanError>
    decreases fuel, 0nat,
{
    if fuel == 0 {
        Err(cycle_error())
    } else {
        match load_active(nodes, heads, id) {
            Err(e) => Err(e),
            Ok(n) => {
                let action = follow_action(id, n.branch_name@, up_name, up_oid);
                let kids = children_spec(nodes, id);
                if kids.len() == 0 {
                    Ok(seq![action])
                } else {
                    match ref_oid_spec(heads, n.branch_name@) {
                        Err(e) => Err(e),
                        Ok(head) => match advance_list(
                            nodes,
                            heads,
                            kids,
                            0,
                            n.branch_name@,
                            head,
                            (fuel - 1) as nat,
                        ) {
                            Err(e) => Err(e),
                            Ok(rest) => Ok(seq![action] + rest),
                        },
                    }
                }
            },
        }
    }
}

/// The rebases of the branches `kids[i..]` and their descendants after their parent
/// `parent_name` moved away from `parent_oid`.
pub open spec fn advance_list(
    nodes: Seq<BranchNode>,
    heads: Seq<LocalBranchHead>,
    kids: Seq<u128>,
    i: int,
    parent_name: Seq<char>,
    parent_oid: Seq<char>,
    fuel: nat,
) -> Result<Seq<ActionView>, PlanError>
    decreases fuel, (kids.len() - i + 1) as nat,
{
    if i < 0 || i >= kids.len() {
        Ok(Seq::<ActionView>::empty())
    } else {
        match advance_walk(nodes, heads, kids[i], parent_name, parent_oid, fuel) {
            Err(e) => Err(e),
            Ok(a) => match advance_list(nodes, heads, kids, i + 1, parent_name, parent_oid, fuel) {
                Err(e) => Err(e),
                Ok(b) => Ok(a + b),
            },
        }
    }
}

/// The rebases after branch `id` was moved off `up_name`: the branch goes onto `base` from the
/// current head of `up_name`, with the given parent change, and each active descendant follows
/// its parent from that parent's current head.
pub open spec fn restack_walk(
    nodes: Seq<BranchNode>,
    heads: Seq<LocalBranchHead>,
    id: u128,
    up_name: Seq<char>,
    base: (Seq<char>, Option<Seq<char>>),
    new_parent: Option<ParentRef>,
    fuel: nat,
) -> Result<Seq<ActionView>, PlanError>
    decreases fuel, 0nat,
{
    if fuel == 0 {
        Err(cycle_error())
    } else {
        match load_active(nodes, heads, id) {
            Err(e) => Err(e),
            Ok(n) => match ref_oid_spec(heads, up_name) {
                Err(e) => Err(e),
                Ok(up_oid) => {
                    let action = ActionView {
                        node_id: id,
                        branch_name: n.branch_name@,
                        old_upstream_branch_name: up_name,
                        old_upstream_oid: up_oid,
                        new_base: base,
                        new_parent: new_parent,
                    };
                    match restack_list(
                        nodes,
                        heads,
                        children_spec(nodes, id),
                        0,
                        n.branch_name@,
                        (fuel - 1) as nat,
                    ) {
                        Err(e) => Err(e),
                        Ok(rest) => Ok(seq![action] + rest),
                    }
                },
            },
        }
    }
}

/// The rebases of the branches `kids[i..]` and their descendants onto their parent
/// `parent_name`, without parent change.
pub open spec fn restack_list(
    nodes: Seq<BranchNode>,
    heads: Seq<LocalBranchHead>,
    kids: Seq<u128>,
    i: int,
    parent_name: Seq<char>,
    fuel: nat,
) -> Result<Seq<ActionView>, PlanError>
    decreases fuel, (kids.len() - i + 1) as nat,
{
    if i < 0 || i >= kids.len() {
        Ok(Seq::<ActionView>::empty())
    } else {
        match restack_walk(
            nodes,
            heads,
            kids[i],
            parent_name,
            (parent_name, None),
            None,
            fuel,
        ) {
            Err(e) => Err(e),
            Ok(a) => match restack_list(nodes, heads, kids, i + 1, parent_name, fuel) {
                Err(e) => Err(e),
                Ok(b) => Ok(a + b),
            },
        }
    }
}

/// A planning result as plain values.
pub open spec fn outcome(r: Result<Vec<RestackAction>, DigError>) -> Result<Seq<ActionView>, PlanError> {
    match r {
        Ok(v) => Ok(action_views(v@)),
        Err(e) => Err((e.kind, e.message@)),
    }
}

proof fn lemma_views_concat(a: Seq<RestackAction>, b: Seq<RestackAction>)
    ensures
        action_views(a + b) == action_views(a) + action_views(b),
{
    assert(action_views(a + b) =~= action_views(a) + action_views(b));
}

/// The head of the first local branch with the given name.
pub fn find_head<'a>(heads: &'a Vec<LocalBranchHead>, name: &str) -> (r: Option<&'a String>)
    ensures
        match r {
            Some(oid) => head_lookup(heads@, name@) == Some(oid@),
            None => head_lookup(heads@, name@) is None,
        },
{
    let mut i: usize = 0;
    proof {
        assert(heads@.subrange(0, heads@.len() as int) =~= heads@);
    }
    while i < heads.len()
        invariant
            i <= heads.len(),
            head_lookup(heads@, name@) == head_lookup(heads@.subrange(i as int, heads@.len() as int), name@),
        decreases heads.len() - i,
    {
        let ghost rest = heads@.subrange(i as int, heads@.len() as int);
        proof {
            assert(rest[0] == heads@[i as int]);
            assert(rest.drop_first() =~= heads@.subrange(i as int + 1, heads@.len() as int));
        }
        if str_equal(heads[i].branch_name.as_str(), name) {
            return Some(&heads[i].head_oid);
        }
        i = i + 1;
    }
    None
}

/// The first recorded merge base of `left` and `right`.
pub fn find_merge_base<'a>(facts: &'a Vec<MergeBaseFact>, left: &str, right: &str) -> (r: Option<
    &'a String,
>)
    ensures
        match r {
            Some(oid) => merge_base_lookup(facts@, left@, right@) == Some(oid@),
            None => merge_base_lookup(facts@, left@, right@) is None,
        },
{
    let mut i: usize = 0;
    proof {
        assert(facts@.subrange(0, facts@.len() as int) =~= facts@);
    }
    while i < facts.len()
        invariant
            i <= facts.len(),
            merge_base_lookup(facts@, left@, right@) == merge_base_lookup(
                facts@.subrange(i as int, facts@.len() as int),
                left@,
                right@,
            ),
        decreases facts.len() - i,
    {
        let ghost rest = facts@.subrange(i as int, facts@.len() as int);
        proof {
            assert(rest[0] == facts@[i as int]);
            assert(rest.drop_first() =~= facts@.subrange(i as int + 1, facts@.len() as int));
        }
        if str_equal(facts[i].left.as_str(), left) && str_equal(facts[i].right.as_str(), right) {
            return Some(&facts[i].oid);
        }
        i = i + 1;
    }
    None
}

fn git_failure() -> (e: DigError)
    ensures
        (e.kind, e.message@) == git_failed(),
{
    DigError::new(ErrorKind::Other, to_owned_string("git command failed"))
}

fn cycle_failure() -> (e: DigError)
    ensures
        (e.kind, e.message@) == cycle_error(),
{
    DigError::new(ErrorKind::InvalidData, to_owned_string("tracked branches form a parent cycle"))
}

/// The commit a local branch points at.
pub fn ref_oid(facts: &RepoFacts, name: &str) -> (r: Result<String, DigError>)
    ensures
        match r {
            Ok(oid) => ref_oid_spec(facts.heads@, name@) == Ok::<Seq<char>, PlanError>(oid@),
            Err(e) => ref_oid_spec(facts.heads@, name@) == Err::<Seq<char>, PlanError>((e.kind, e.message@)),
        },
{
    match find_head(&facts.heads, name) {
        Some(oid) => Ok(oid.clone()),
        None => Err(git_failure()),
    }
}

/// The merge base of two refs.
pub fn merge_base(facts: &RepoFacts, left: &str, right: &str) -> (r: Result<String, DigError>)
    ensures
        match r {
            Ok(oid) => merge_base_spec(facts.merge_bases@, left@, right@) == Ok::<Seq<char>, PlanError>(oid@),
            Err(e) => merge_base_spec(facts.merge_bases@, left@, right@) == Err::<Seq<char>, PlanError>(
                (e.kind, e.message@),
            ),
        },
{
    match find_merge_base(&facts.merge_bases, left, right) {
        Some(oid) => Ok(oid.clone()),
        None => Err(git_failure()),
    }
}

/// The active tracked branch with the given id, if it still exists locally.
pub fn load_active_branch_node<'s>(state: &'s DigState, facts: &RepoFacts, node_id: u128) -> (r: Result<
    &'s BranchNode,
    DigError,
>)
    ensures
        match r {
            Ok(n) => load_active(state.nodes@, facts.heads@, node_id) == Ok::<BranchNode, PlanError>(*n),
            Err(e) => load_active(state.nodes@, facts.heads@, node_id) == Err::<BranchNode, PlanError>(
                (e.kind, e.message@),
            ),
        },
{
    proof {
        lemma_id_position_is_first(state.nodes@, node_id);
    }
    match state.find_branch_by_id(node_id) {
        None => Err(
            DigError::new(ErrorKind::NotFound, to_owned_string("tracked descendant branch was not found")),
        ),
        Some(node) => {
            if find_head(&facts.heads, node.branch_name.as_str()).is_some() {
                Ok(node)
            } else {
                let message = message_with_name(
                    "tracked descendant branch ",
                    node.branch_name.as_str(),
                    " no longer exists locally",
                );
                Err(DigError::new(ErrorKind::NotFound, message))
            }
        },
    }
}

fn collect_branch_advance_actions(
    state: &DigState,
    facts: &RepoFacts,
    node_id: u128,
    old_upstream_branch_name: &str,
    old_upstream_oid: &str,
    fuel: usize,
) -> (r: Result<Vec<RestackAction>, DigError>)
    ensures
        outcome(r) == advance_walk(
            state.nodes@,
            facts.heads@,
            node_id,
            old_upstream_branch_name@,
            old_upstream_oid@,
            fuel as nat,
        ),
    decreases fuel, 0nat,
{
    if fuel == 0 {
        return Err(cycle_failure());
    }
    let node = match load_active_branch_node(state, facts, node_id) {
        Ok(n) => n,
        Err(e) => return Err(e),
    };
    let branch_name = node.branch_name.clone();
    let mut actions: Vec<RestackAction> = Vec::new();
    actions.push(
        RestackAction {
            node_id,
            branch_name: branch_name.clone(),
            old_upstream_branch_name: to_owned_string(old_upstream_branch_name),
            old_upstream_oid: to_owned_string(old_upstream_oid),
            new_base: RestackBaseTarget::local(old_upstream_branch_name),
            new_parent: None,
        },
    );
    let ghost first = follow_action(node_id, branch_name@, old_upstream_branch_name@, old_upstream_oid@);
    proof {
        assert(action_views(actions@) =~= seq![first]);
    }
    let kids = BranchGraph::new(state).active_children_ids(node_id);
    if kids.len() == 0 {
        return Ok(actions);
    }
    let head = match ref_oid(facts, branch_name.as_str()) {
        Ok(h) => h,
        Err(e) => return Err(e),
    };
    match advance_children(state, facts, &kids, 0, branch_name.as_str(), head.as_str(), fuel - 1) {
        Err(e) => Err(e),
        Ok(mut rest) => {
            let ghost a = actions@;
            let ghost b = rest@;
            actions.append(&mut rest);
            proof {
                lemma_views_concat(a, b);
            }
            Ok(actions)
        },
    }
}

fn advance_children(
    state: &DigState,
    facts: &RepoFacts,
    kids: &Vec<u128>,
    i: usize,
    parent_name: &str,
    parent_oid: &str,
    fuel: usize,
) -> (r: Result<Vec<RestackAction>, DigError>)
    requires
        i <= kids.len(),
    ensures
        outcome(r) == advance_list(
            state.nodes@,
            facts.heads@,
            kids@,
            i as int,
            parent_name@,
            parent_oid@,
            fuel as nat,
        ),
    decreases fuel, (kids@.len() - i + 1) as nat,
{
    if i >= kids.len() {
        let v: Vec<RestackAction> = Vec::new();
        proof {
            assert(action_views(v@) =~= Seq::<ActionView>::empty());
        }
        return Ok(v);
    }
    let mut a = match collect_branch_advance_actions(state, facts, kids[i], parent_name, parent_oid, fuel) {
        Ok(a) => a,
        Err(e) => return Err(e),
    };
    let mut b = match advance_children(state, facts, kids, i + 1, parent_name, parent_oid, fuel) {
        Ok(b) => b,
        Err(e) => return Err(e),
    };
    let ghost av = a@;
    let ghost bv = b@;
    a.append(&mut b);
    proof {
        lemma_views_concat(av, bv);
    }
    Ok(a)
}

fn collect_restack_actions(
    state: &DigState,
    facts: &RepoFacts,
    node_id: u128,
    old_upstream_branch_name: &str,
    new_base: RestackBaseTarget,
    new_parent: Option<ParentRef>,
    fuel: usize,
) -> (r: Result<Vec<RestackAction>, DigError>)
    ensures
        outcome(r) == restack_walk(
            state.nodes@,
            facts.heads@,
            node_id,
            old_upstream_branch_name@,
            base_view(new_base),
            new_parent,
            fuel as nat,
        ),
    decreases fuel, 0nat,
{
    if fuel == 0 {
        return Err(cycle_failure());
    }
    let node = match load_active_branch_node(state, facts, node_id) {
        Ok(n) => n,
        Err(e) => return Err(e),
    };
    let old_upstream_oid = match ref_oid(facts, old_upstream_branch_name) {
        Ok(h) => h,
        Err(e) => return Err(e),
    };
    let branch_name = node.branch_name.clone();
    let mut actions: Vec<RestackAction> = Vec::new();
    actions.push(
        RestackAction {
            node_id,
            branch_name: branch_name.clone(),
            old_upstream_branch_name: to_owned_string(old_upstream_branch_name),
            old_upstream_oid,
            new_base,
            new_parent,
        },
    );
    let kids = BranchGraph::new(state).active_children_ids(node_id);
    match restack_children(state, facts, &kids, 0, branch_name.as_str(), fuel - 1) {
        Err(e) => Err(e),
        Ok(mut rest) => {
            let ghost a = actions@;
            let ghost b = rest@;
            actions.append(&mut rest);
            proof {
                lemma_views_concat(a, b);
                assert(action_views(a) =~= seq![a[0]@]);
            }
            Ok(actions)
        },
    }
}

fn restack_children(
    state: &DigState,
    facts: &RepoFacts,
    kids: &Vec<u128>,
    i: usize,
    parent_name: &str,
    fuel: usize,
) -> (r: Result<Vec<RestackAction>, DigError>)
    requires
        i <= kids.len(),
    ensures
        outcome(r) == restack_list(state.nodes@, facts.heads@, kids@, i as int, parent_name@, fuel as nat),
    decreases fuel, (kids@.len() - i + 1) as nat,
{
    if i >= kids.len() {
        let v: Vec<RestackAction> = Vec::new();
        proof {
            assert(action_views(v@) =~= Seq::<ActionView>::empty());
        }
        return Ok(v);
    }
    let mut a = match collect_restack_actions(
        state,
        facts,
        kids[i],
        parent_name,
        RestackBaseTarget::local(parent_name),
        None,
        fuel,
    ) {
        Ok(a) => a,
        Err(e) => return Err(e),
    };
    let mut b = match restack_children(state, facts, kids, i + 1, parent_name, fuel) {
        Ok(b) => b,
        Err(e) => return Err(e),
    };
    let ghost av = a@;
    let ghost bv = b@;
    a.append(&mut b);
    proof {
        lemma_views_concat(av, bv);
    }
    Ok(a)
}

/// The ref a base is rebased onto.
pub open spec fn rebase_ref_of(base: (Seq<char>, Option<Seq<char>>)) -> Seq<char> {
    match base.1 {
        Some(r) => r,
        None => base.0,
    }
}

/// The rebases after branch `detached` left its place: each active child of it goes onto
/// `base` with the parent change `new_parent`, and their descendants follow their parents.
pub open spec fn detach_list(
    nodes: Seq<BranchNode>,
    heads: Seq<LocalBranchHead>,
    kids: Seq<u128>,
    i: int,
    detached_name: Seq<char>,
    base: (Seq<char>, Option<Seq<char>>),
    new_parent: ParentRef,
) -> Result<Seq<ActionView>, PlanError>
    decreases kids.len() - i,
{
    if i < 0 || i >= kids.len() {
        Ok(Seq::<ActionView>::empty())
    } else {
        match restack_walk(nodes, heads, kids[i], detached_name, base, Some(new_parent), nodes.len()) {
            Err(e) => Err(e),
            Ok(a) => match detach_list(nodes, heads, kids, i + 1, detached_name, base, new_parent) {
                Err(e) => Err(e),
                Ok(b) => Ok(a + b),
            },
        }
    }
}

/// The rebases after branch `deleted` was deleted: each active child of it goes onto `base`
/// with the parent change `new_parent`, from the given old upstream or else from its merge
/// base with the base's rebase ref, and its descendants follow their parents.
pub open spec fn deleted_list(
    nodes: Seq<BranchNode>,
    heads: Seq<LocalBranchHead>,
    merge_bases: Seq<MergeBaseFact>,
    kids: Seq<u128>,
    i: int,
    deleted_name: Seq<char>,
    base: (Seq<char>, Option<Seq<char>>),
    new_parent: ParentRef,
    old_upstream_override: Option<Seq<char>>,
) -> Result<Seq<ActionView>, PlanError>
    decreases kids.len() - i,
{
    if i < 0 || i >= kids.len() {
        Ok(Seq::<ActionView>::empty())
    } else {
        match load_active(nodes, heads, kids[i]) {
            Err(e) => Err(e),
            Ok(child) => {
                let up = match old_upstream_override {
                    Some(o) => Ok(o),
                    None => merge_base_spec(merge_bases, rebase_ref_of(base), child.branch_name@),
                };
                match up {
                    Err(e) => Err(e),
                    Ok(up_oid) => match ref_oid_spec(heads, child.branch_name@) {
                        Err(e) => Err(e),
                        Ok(head) => {
                            let action = ActionView {
                                node_id: kids[i],
                                branch_name: child.branch_name@,
                                old_upstream_branch_name: deleted_name,
                                old_upstream_oid: up_oid,
                                new_base: base,
                                new_parent: Some(new_parent),
                            };
                            match advance_list(
                                nodes,
                                heads,
                                children_spec(nodes, kids[i]),
                                0,
                                child.branch_name@,
                                head,
                                nodes.len(),
                            ) {
                                Err(e) => Err(e),
                                Ok(sub) => match deleted_list(
                                    nodes,
                                    heads,
                                    merge_bases,
                                    kids,
                                    i + 1,
                                    deleted_name,
                                    base,
                                    new_parent,
                                    old_upstream_override,
                                ) {
                                    Err(e) => Err(e),
                                    Ok(rest) => Ok(seq![action] + sub + rest),
                                },
                            }
                        },
                    },
                }
            },
        }
    }
}

/// The rebases after branch `id` was rebased onto `base`: the branch itself first, from
/// `old_upstream_oid`, then its descendants following their parents, the direct children from
/// `old_head_oid`.
pub open spec fn rebase_plan(
    nodes: Seq<BranchNode>,
    heads: Seq<LocalBranchHead>,
    id: u128,
    name: Seq<char>,
    old_upstream_oid: Seq<char>,
    old_head_oid: Seq<char>,
    base: (Seq<char>, Option<Seq<char>>),
) -> Result<Seq<ActionView>, PlanError> {
    match load_active(nodes, heads, id) {
        Err(e) => Err(e),
        Ok(_) => match advance_list(nodes, heads, children_spec(nodes, id), 0, name, old_head_oid, nodes.len()) {
            Err(e) => Err(e),
            Ok(rest) => Ok(
                seq![
                    ActionView {
                        node_id: id,
                        branch_name: name,
                        old_upstream_branch_name: base.0,
                        old_upstream_oid: old_upstream_oid,
                        new_base: base,
                        new_parent: None,
                    },
                ] + rest,
            ),
        },
    }
}

/// The rebases after branch `id` was moved from `current_parent` to `new_parent`: the branch
/// itself first, from its merge base with the current parent, then its descendants following
/// their parents, the direct children from the branch's current head.
pub open spec fn reparent_plan(
    nodes: Seq<BranchNode>,
    heads: Seq<LocalBranchHead>,
    merge_bases: Seq<MergeBaseFact>,
    id: u128,
    name: Seq<char>,
    current_parent: Seq<char>,
    base: (Seq<char>, Option<Seq<char>>),
    new_parent: ParentRef,
) -> Result<Seq<ActionView>, PlanError> {
    match load_active(nodes, heads, id) {
        Err(e) => Err(e),
        Ok(_) => match merge_base_spec(merge_bases, current_parent, name) {
            Err(e) => Err(e),
            Ok(up_oid) => match ref_oid_spec(heads, name) {
                Err(e) => Err(e),
                Ok(head) => match advance_list(nodes, heads, children_spec(nodes, id), 0, name, head, nodes.len()) {
                    Err(e) => Err(e),
                    Ok(rest) => Ok(
                        seq![
                            ActionView {
                                node_id: id,
                                branch_name: name,
                                old_upstream_branch_name: current_parent,
                                old_upstream_oid: up_oid,
                                new_base: base,
                                new_parent: Some(new_parent),
                            },
                        ] + rest,
                    ),
                },
            },
        },
    }
}

fn detach_children(
    state: &DigState,
    facts: &RepoFacts,
    kids: &Vec<u128>,
    i: usize,
    detached_branch_name: &str,
    new_parent_base: &RestackBaseTarget,
    new_parent: ParentRef,
) -> (r: Result<Vec<RestackAction>, DigError>)
    requires
        i <= kids.len(),
    ensures
        outcome(r) == detach_list(
            state.nodes@,
            facts.heads@,
            kids@,
            i as int,
            detached_branch_name@,
            base_view(*new_parent_base),
            new_parent,
        ),
    decreases kids.len() - i,
{
    if i >= kids.len() {
        let v: Vec<RestackAction> = Vec::new();
        proof {
            assert(action_views(v@) =~= Seq::<ActionView>::empty());
        }
        return Ok(v);
    }
    let mut a = match collect_restack_actions(
        state,
        facts,
        kids[i],
        detached_branch_name,
        new_parent_base.duplicate(),
        Some(new_parent),
        state.nodes.len(),
    ) {
        Ok(a) => a,
        Err(e) => return Err(e),
    };
    let mut b = match detach_children(state, facts, kids, i + 1, detached_branch_name, new_parent_base, new_parent) {
        Ok(b) => b,
        Err(e) => return Err(e),
    };
    let ghost av = a@;
    let ghost bv = b@;
    a.append(&mut b);
    proof {
        lemma_views_concat(av, bv);
    }
    Ok(a)
}

/// Plans the rebases after a branch left its place in the stack: its children go onto the new
/// base with the parent change, and their descendants follow their parents.
pub fn plan_after_branch_detach(
    state: &DigState,
    facts: &RepoFacts,
    detached_node_id: u128,
    detached_branch_name: &str,
    new_parent_base: &RestackBaseTarget,
    new_parent: &ParentRef,
) -> (r: Result<Vec<RestackAction>, DigError>)
    ensures
        outcome(r) == detach_list(
            state.nodes@,
            facts.heads@,
            children_spec(state.nodes@, detached_node_id),
            0,
            detached_branch_name@,
            base_view(*new_parent_base),
            *new_parent,
        ),
{
    let kids = BranchGraph::new(state).active_children_ids(detached_node_id);
    detach_children(state, facts, &kids, 0, detached_branch_name, new_parent_base, *new_parent)
}

/// Plans the rebases after a branch advanced from `old_head_oid`: its descendants follow their
/// parents, the direct children from the old head.
pub fn plan_after_branch_advance(
    state: &DigState,
    facts: &RepoFacts,
    advanced_node_id: u128,
    advanced_branch_name: &str,
    old_head_oid: &str,
) -> (r: Result<Vec<RestackAction>, DigError>)
    ensures
        outcome(r) == advance_list(
            state.nodes@,
            facts.heads@,
            children_spec(state.nodes@, advanced_node_id),
            0,
            advanced_branch_name@,
            old_head_oid@,
            state.nodes@.len(),
        ),
{
    let kids = BranchGraph::new(state).active_children_ids(advanced_node_id);
    advance_children(state, facts, &kids, 0, advanced_branch_name, old_head_oid, state.nodes.len())
}

/// Plans the rebases after a branch was rebased onto `new_base`.
pub fn plan_after_branch_rebase(
    state: &DigState,
    facts: &RepoFacts,
    rebased_node_id: u128,
    rebased_branch_name: &str,
    old_upstream_oid: &str,
    old_head_oid: &str,
    new_base: &RestackBaseTarget,
) -> (r: Result<Vec<RestackAction>, DigError>)
    ensures
        outcome(r) == rebase_plan(
            state.nodes@,
            facts.heads@,
            rebased_node_id,
            rebased_branch_name@,
            old_upstream_oid@,
            old_head_oid@,
            base_view(*new_base),
        ),
{
    match load_active_branch_node(state, facts, rebased_node_id) {
        Ok(_) => {},
        Err(e) => return Err(e),
    }
    let mut actions: Vec<RestackAction> = Vec::new();
    actions.push(
        RestackAction {
            node_id: rebased_node_id,
            branch_name: to_owned_string(rebased_branch_name),
            old_upstream_branch_name: new_base.branch_name.clone(),
            old_upstream_oid: to_owned_string(old_upstream_oid),
            new_base: new_base.duplicate(),
            new_parent: None,
        },
    );
    let kids = BranchGraph::new(state).active_children_ids(rebased_node_id);
    match advance_children(state, facts, &kids, 0, rebased_branch_name, old_head_oid, state.nodes.len()) {
        Err(e) => Err(e),
        Ok(mut rest) => {
            let ghost a = actions@;
            let ghost b = rest@;
            actions.append(&mut rest);
            proof {
                lemma_views_concat(a, b);
                assert(action_views(a) =~= seq![a[0]@]);
            }
            Ok(actions)
        },
    }
}

/// Plans the rebases after a branch was moved from `current_parent_branch_name` under
/// `new_parent`.
pub fn plan_after_branch_reparent(
    state: &DigState,
    facts: &RepoFacts,
    node_id: u128,
    branch_name: &str,
    current_parent_branch_name: &str,
    new_parent_base: &RestackBaseTarget,
    new_parent: &ParentRef,
) -> (r: Result<Vec<RestackAction>, DigError>)
    ensures
        outcome(r) == reparent_plan(
            state.nodes@,
            facts.heads@,
            facts.merge_bases@,
            node_id,
            branch_name@,
            current_parent_branch_name@,
            base_view(*new_parent_base),
            *new_parent,
        ),
{
    match load_active_branch_node(state, facts, node_id) {
        Ok(_) => {},
        Err(e) => return Err(e),
    }
    let old_upstream_oid = match merge_base(facts, current_parent_branch_name, branch_name) {
        Ok(o) => o,
        Err(e) => return Err(e),
    };
    let old_head_oid = match ref_oid(facts, branch_name) {
        Ok(o) => o,
        Err(e) => return Err(e),
    };
    let mut actions: Vec<RestackAction> = Vec::new();
    actions.push(
        RestackAction {
            node_id,
            branch_name: to_owned_string(branch_name),
            old_upstream_branch_name: to_owned_string(current_parent_branch_name),
            old_upstream_oid,
            new_base: new_parent_base.duplicate(),
            new_parent: Some(*new_parent),
        },
    );
    let kids = BranchGraph::new(state).active_children_ids(node_id);
    match advance_children(state, facts, &kids, 0, branch_name, old_head_oid.as_str(), state.nodes.len()) {
        Err(e) => Err(e),
        Ok(mut rest) => {
            let ghost a = actions@;
            let ghost b = rest@;
            actions.append(&mut rest);
            proof {
                lemma_views_concat(a, b);
                assert(action_views(a) =~= seq![a[0]@]);
            }
            Ok(actions)
        },
    }
}

fn deleted_children(
    state: &DigState,
    facts: &RepoFacts,
    kids: &Vec<u128>,
    i: usize,
    deleted_branch_name: &str,
    new_parent_base: &RestackBaseTarget,
    new_parent: ParentRef,
    old_upstream_oid_override: Option<&str>,
) -> (r: Result<Vec<RestackAction>, DigError>)
    requires
        i <= kids.len(),
    ensures
        outcome(r) == deleted_list(
            state.nodes@,
            facts.heads@,
            facts.merge_bases@,
            kids@,
            i as int,
            deleted_branch_name@,
            base_view(*new_parent_base),
            new_parent,
            match old_upstream_oid_override {
                Some(o) => Some(o@),
                None => None,
            },
        ),
    decreases kids.len() - i,
{
    if i >= kids.len() {
        let v: Vec<RestackAction> = Vec::new();
        proof {
            assert(action_views(v@) =~= Seq::<ActionView>::empty());
        }
        return Ok(v);
    }
    let child_id = kids[i];
    let child = match load_active_branch_node(state, facts, child_id) {
        Ok(n) => n,
        Err(e) => return Err(e),
    };
    let old_upstream_oid = match old_upstream_oid_override {
        Some(o) => to_owned_string(o),
        None => match merge_base(facts, new_parent_base.rebase_ref(), child.branch_name.as_str()) {
            Ok(o) => o,
            Err(e) => return Err(e),
        },
    };
    let old_head_oid = match ref_oid(facts, child.branch_name.as_str()) {
        Ok(o) => o,
        Err(e) => return Err(e),
    };
    let mut actions: Vec<RestackAction> = Vec::new();
    actions.push(
        RestackAction {
            node_id: child_id,
            branch_name: child.branch_name.clone(),
            old_upstream_branch_name: to_owned_string(deleted_branch_name),
            old_upstream_oid,
            new_base: new_parent_base.duplicate(),
            new_parent: Some(new_parent),
        },
    );
    let grandchildren = BranchGraph::new(state).active_children_ids(child_id);
    let mut sub = match advance_children(
        state,
        facts,
        &grandchildren,
        0,
        child.branch_name.as_str(),
        old_head_oid.as_str(),
        state.nodes.len(),
    ) {
        Ok(v) => v,
        Err(e) => return Err(e),
    };
    let mut rest = match deleted_children(
        state,
        facts,
        kids,
        i + 1,
        deleted_branch_name,
        new_parent_base,
        new_parent,
        old_upstream_oid_override,
    ) {
        Ok(v) => v,
        Err(e) => return Err(e),
    };
    let ghost a = actions@;
    let ghost b = sub@;
    let ghost c = rest@;
    actions.append(&mut sub);
    actions.append(&mut rest);
    proof {
        lemma_views_concat(a, b);
        lemma_views_concat(a + b, c);
        assert(action_views(a) =~= seq![a[0]@]);
    }
    Ok(actions)
}

/// Plans the rebases after a branch was deleted: its children go onto the new base with the
/// parent change, each from its merge base with the base's rebase ref.
pub fn plan_after_deleted_branch(
    state: &DigState,
    facts: &RepoFacts,
    deleted_node_id: u128,
    deleted_branch_name: &str,
    new_parent_base: &RestackBaseTarget,
    new_parent: &ParentRef,
) -> (r: Result<Vec<RestackAction>, DigError>)
    ensures
        outcome(r) == deleted_list(
            state.nodes@,
            facts.heads@,
            facts.merge_bases@,
            children_spec(state.nodes@, deleted_node_id),
            0,
            deleted_branch_name@,
            base_view(*new_parent_base),
            *new_parent,
            None,
        ),
{
    let kids = BranchGraph::new(state).active_children_ids(deleted_node_id);
    deleted_children(state, facts, &kids, 0, deleted_branch_name, new_parent_base, *new_parent, None)
}

/// Plans the rebases after a branch was deleted, the children moving from the given old
/// upstream commit.
pub fn plan_after_deleted_branch_with_old_upstream_override(
    state: &DigState,
    facts: &RepoFacts,
    deleted_node_id: u128,
    deleted_branch_name: &str,
    new_parent_base: &RestackBaseTarget,
    new_parent: &ParentRef,
    old_upstream_oid_override: &str,
) -> (r: Result<Vec<RestackAction>, DigError>)
    ensures
        outcome(r) == deleted_list(
            state.nodes@,
            facts.heads@,
            facts.merge_bases@,
            children_spec(state.nodes@, deleted_node_id),
            0,
            deleted_branch_name@,
            base_view(*new_parent_base),
            *new_parent,
            Some(old_upstream_oid_override@),
        ),
{
    let kids = BranchGraph::new(state).active_children_ids(deleted_node_id);
    deleted_children(
        state,
        facts,
        &kids,
        0,
        deleted_branch_name,
        new_parent_base,
        *new_parent,
        Some(old_upstream_oid_override),
    )
}

/// The preview of a planned rebase: the branch, the branch it goes onto, and whether its
/// parent changes.
pub open spec fn preview_of(a: ActionView) -> (Seq<char>, Seq<char>, bool) {
    (a.branch_name, a.new_base.0, a.new_parent is Some)
}

/// Whether `ps` holds the previews of the planned rebases `actions`, one per action, in order.
pub open spec fn previews_match(ps: Seq<RestackPreview>, actions: Seq<ActionView>) -> bool {
    &&& ps.len() == actions.len()
    &&& forall|i: int|
        0 <= i < ps.len() ==> (#[trigger] ps[i].branch_name@, ps[i].onto_branch@, ps[i].parent_changed)
            == preview_of(actions[i])
}

/// The previews of planned rebases, one per action, in order.
pub fn previews_for_actions(actions: &[RestackAction]) -> (r: Vec<RestackPreview>)
    ensures
        r@.len() == actions@.len(),
        forall|i: int|
            0 <= i < r@.len() ==> (#[trigger] r@[i].branch_name@, r@[i].onto_branch@, r@[i].parent_changed)
                == preview_of(actions@[i]@),
{
    let mut r: Vec<RestackPreview> = Vec::new();
    let mut i: usize = 0;
    while i < actions.len()
        invariant
            i <= actions.len(),
            r@.len() == i,
            forall|j: int|
                0 <= j < i ==> (#[trigger] r@[j].branch_name@, r@[j].onto_branch@, r@[j].parent_changed)
                    == preview_of(actions@[j]@),
        decreases actions.len() - i,
    {
        let action = &actions[i];
        r.push(
            RestackPreview {
                branch_name: action.branch_name.clone(),
                onto_branch: action.new_base.branch_name.clone(),
                parent_changed: action.new_parent.is_some(),
            },
        );
        i = i + 1;
    }
    r
}

/// Records the parent change of a finished rebase, if it has one, and reports it.
pub fn finalize_action(state: &mut DigState, action: &RestackAction) -> (r: Result<
    Option<ParentChange>,
    DigError,
>)
    ensures
        final(state).version == old(state).version,
        match action.new_parent {
            None => {
                &&& r matches Ok(c) && c is None
                &&& final(state).nodes@ == old(state).nodes@
            },
            Some(p) => match id_position(old(state).nodes@, action.node_id) {
                Some(i) => {
                    &&& r matches Ok(Some(change)) && change.branch_id == action.node_id
                        && change.branch_name@ == action.branch_name@ && change.old_parent
                        == old(state).nodes@[i].parent && change.new_parent == p
                        && change.old_base_ref == old(state).nodes@[i].base_ref
                        && change.new_base_ref@ == action.new_base.branch_name@
                    &&& final(state).nodes@ == old(state).nodes@.update(
                        i,
                        BranchNode {
                            parent: p,
                            base_ref: final(state).nodes@[i].base_ref,
                            ..old(state).nodes@[i]
                        },
                    )
                    &&& final(state).nodes@[i].base_ref@ == action.new_base.branch_name@
                },
                None => {
                    &&& r matches Err(e) && e.kind == ErrorKind::NotFound && e.message@
                        == crate::model::branch_not_found_message()
                    &&& final(state).nodes@ == old(state).nodes@
                },
            },
        },
{
    match action.new_parent {
        None => Ok(None),
        Some(new_parent) => {
            let new_base_ref = action.new_base.branch_name.clone();
            proof {
                lemma_id_position_is_first(state.nodes@, action.node_id);
            }
            let ghost before = state.nodes@;
            let result = state.reparent_branch(action.node_id, new_parent, new_base_ref);
            proof {
                if let Some(i) = id_position(before, action.node_id) {
                    assert(state.nodes@ =~= before.update(
                        i,
                        BranchNode { parent: new_parent, base_ref: state.nodes@[i].base_ref, ..before[i] },
                    ));
                }
            }
            match result {
                Ok((old_parent, old_base_ref)) => Ok(
                    Some(
                        ParentChange {
                            branch_id: action.node_id,
                            branch_name: action.branch_name.clone(),
                            old_parent,
                            new_parent,
                            old_base_ref,
                            new_base_ref: action.new_base.branch_name.clone(),
                        },
                    ),
                ),
                Err(e) => Err(e),
            }
        },
    }
}

} // verus!
