use vstd::prelude::*;

use crate::error::{message_with_name, DigError, ErrorKind};
use crate::text::{str_equal, to_owned_string};

verus! {

/// The version of the state file that this library writes.
pub const DIG_STATE_VERSION: u32 = 1;

/// The version of the config file that this library writes.
pub const DIG_CONFIG_VERSION: u32 = 1;

/// The version of the pending-operation file that this library writes.
pub const DIG_OPERATION_VERSION: u32 = 1;

/// The configuration of a repository: its trunk branch.
#[derive(Debug, Clone, PartialEq, Eq)]
pub struct DigConfig {
    pub version: u32,
    pub trunk_branch: String,
}

impl DigConfig {
    /// A configuration of the current version with the given trunk branch.
    pub fn new(trunk_branch: String) -> (c: DigConfig)
        ensures
            c.version == DIG_CONFIG_VERSION,
            c.trunk_branch == trunk_branch,
    {
        DigConfig { version: DIG_CONFIG_VERSION, trunk_branch }
    }
}

/// Where a tracked branch hangs: on trunk, or under another tracked branch.
#[derive(Debug, Clone, Copy, PartialEq, Eq, Structural)]
pub enum ParentRef {
    Trunk,
    Branch { node_id: u128 },
}

/// The pull request a branch is tracked with.
#[derive(Debug, Clone, Copy, PartialEq, Eq, Structural)]
pub struct TrackedPullRequest {
    pub number: u64,
}

/// A branch tracked in the store.
#[derive(Debug, Clone, PartialEq, Eq)]
pub struct BranchNode {
    pub id: u128,
    pub branch_name: String,
    pub parent: ParentRef,
    pub base_ref: String,
    pub fork_point_oid: String,
    pub head_oid_at_creation: String,
    pub created_at_unix_secs: u64,
    pub pull_request: Option<TrackedPullRequest>,
    pub archived: bool,
}

impl BranchNode {
    /// A copy of this node.
    pub fn duplicate(&self) -> (n: BranchNode)
        ensures
            n == *self,
    {
        BranchNode {
            id: self.id,
            branch_name: self.branch_name.clone(),
            parent: self.parent,
            base_ref: self.base_ref.clone(),
            fork_point_oid: self.fork_point_oid.clone(),
            head_oid_at_creation: self.head_oid_at_creation.clone(),
            created_at_unix_secs: self.created_at_unix_secs,
            pull_request: self.pull_request,
            archived: self.archived,
        }
    }
}

/// The tracked branches of a repository.
#[derive(Debug, Clone, PartialEq, Eq)]
pub struct DigState {
    pub version: u32,
    pub nodes: Vec<BranchNode>,
}

/// Whether entry `i` is an active branch with the given name.
pub open spec fn active_named(nodes: Seq<BranchNode>, i: int, name: Seq<char>) -> bool {
    0 <= i < nodes.len() && !nodes[i].archived && nodes[i].branch_name@ == name
}

/// Whether entry `i` is an active branch with the given id.
pub open spec fn active_with_id(nodes: Seq<BranchNode>, i: int, id: u128) -> bool {
    0 <= i < nodes.len() && !nodes[i].archived && nodes[i].id == id
}

/// Whether some active branch has the given name.
pub open spec fn has_active_name(nodes: Seq<BranchNode>, name: Seq<char>) -> bool {
    exists|i: int| active_named(nodes, i, name)
}

/// Whether some active branch has the given id.
pub open spec fn has_active_id(nodes: Seq<BranchNode>, id: u128) -> bool {
    exists|i: int| active_with_id(nodes, i, id)
}

/// Whether `i` is the first active branch with the given name.
pub open spec fn first_named(nodes: Seq<BranchNode>, i: int, name: Seq<char>) -> bool {
    active_named(nodes, i, name) && forall|j: int| 0 <= j < i ==> !active_named(nodes, j, name)
}

/// Whether `i` is the first active branch with the given id.
pub open spec fn first_with_id(nodes: Seq<BranchNode>, i: int, id: u128) -> bool {
    active_with_id(nodes, i, id) && forall|j: int| 0 <= j < i ==> !active_with_id(nodes, j, id)
}

/// The position of the first active branch with the given id, if any.
pub open spec fn id_position(nodes: Seq<BranchNode>, id: u128) -> Option<int> {
    if has_active_id(nodes, id) {
        Some(choose|i: int| first_with_id(nodes, i, id))
    } else {
        None
    }
}

/// The position of the first active branch with the given name, if any.
pub open spec fn name_position(nodes: Seq<BranchNode>, name: Seq<char>) -> Option<int> {
    if has_active_name(nodes, name) {
        Some(choose|i: int| first_named(nodes, i, name))
    } else {
        None
    }
}

/// The first active branch with the given id is at `i`.
pub proof fn lemma_id_position(nodes: Seq<BranchNode>, id: u128, i: int)
    requires
        first_with_id(nodes, i, id),
    ensures
        id_position(nodes, id) == Some(i),
{
    let k = choose|k: int| first_with_id(nodes, k, id);
    assert(first_with_id(nodes, k, id));
    if k < i {
        assert(!active_with_id(nodes, k, id));
    } else if k > i {
        assert(!active_with_id(nodes, i, id));
    }
}

/// The first active branch with the given name is at `i`.
pub proof fn lemma_name_position(nodes: Seq<BranchNode>, name: Seq<char>, i: int)
    requires
        first_named(nodes, i, name),
    ensures
        name_position(nodes, name) == Some(i),
{
    let k = choose|k: int| first_named(nodes, k, name);
    assert(first_named(nodes, k, name));
    if k < i {
        assert(!active_named(nodes, k, name));
    } else if k > i {
        assert(!active_named(nodes, i, name));
    }
}

/// A position that `id_position` gives is the first active branch with that id.
pub proof fn lemma_id_position_is_first(nodes: Seq<BranchNode>, id: u128)
    ensures
        match id_position(nodes, id) {
            Some(i) => first_with_id(nodes, i, id),
            None => !has_active_id(nodes, id),
        },
{
    if has_active_id(nodes, id) {
        let w = choose|w: int| active_with_id(nodes, w, id);
        lemma_first_exists_id(nodes, id, w);
    }
}

proof fn lemma_first_exists_id(nodes: Seq<BranchNode>, id: u128, w: int)
    requires
        active_with_id(nodes, w, id),
    ensures
        exists|i: int| first_with_id(nodes, i, id),
    decreases w,
{
    if forall|j: int| 0 <= j < w ==> !active_with_id(nodes, j, id) {
        assert(first_with_id(nodes, w, id));
    } else {
        let j = choose|j: int| 0 <= j < w && active_with_id(nodes, j, id);
        lemma_first_exists_id(nodes, id, j);
    }
}

proof fn lemma_first_exists_name(nodes: Seq<BranchNode>, name: Seq<char>, w: int)
    requires
        active_named(nodes, w, name),
    ensures
        exists|i: int| first_named(nodes, i, name),
    decreases w,
{
    if forall|j: int| 0 <= j < w ==> !active_named(nodes, j, name) {
        assert(first_named(nodes, w, name));
    } else {
        let j = choose|j: int| 0 <= j < w && active_named(nodes, j, name);
        lemma_first_exists_name(nodes, name, j);
    }
}

/// A position that `name_position` gives is the first active branch with that name.
pub proof fn lemma_name_position_is_first(nodes: Seq<BranchNode>, name: Seq<char>)
    ensures
        match name_position(nodes, name) {
            Some(i) => first_named(nodes, i, name),
            None => !has_active_name(nodes, name),
        },
{
    if has_active_name(nodes, name) {
        let w = choose|w: int| active_named(nodes, w, name);
        lemma_first_exists_name(nodes, name, w);
    }
}

/// The active branch with the given id in `nodes`, if any.
pub open spec fn node_with_id(nodes: Seq<BranchNode>, id: u128) -> Option<BranchNode> {
    match id_position(nodes, id) {
        Some(i) => Some(nodes[i]),
        None => None,
    }
}

/// The active branch with the given name in `nodes`, if any.
pub open spec fn node_named(nodes: Seq<BranchNode>, name: Seq<char>) -> Option<BranchNode> {
    match name_position(nodes, name) {
        Some(i) => Some(nodes[i]),
        None => None,
    }
}

/// The name of the branch a parent reference points at: trunk, or the tracked parent, if
/// it is still tracked.
pub open spec fn parent_name_spec(nodes: Seq<BranchNode>, parent: ParentRef, trunk: Seq<char>) -> Option<
    Seq<char>,
> {
    match parent {
        ParentRef::Trunk => Some(trunk),
        ParentRef::Branch { node_id } => match node_with_id(nodes, node_id) {
            Some(n) => Some(n.branch_name@),
            None => None,
        },
    }
}

/// The message of a lookup by id that found nothing.
pub open spec fn branch_not_found_message() -> Seq<char> {
    "tracked branch was not found"@
}

/// A failure for a lookup by id that found nothing.
pub fn branch_not_found() -> (e: DigError)
    ensures
        e.kind == ErrorKind::NotFound,
        e.message@ == branch_not_found_message(),
{
    DigError::new(ErrorKind::NotFound, to_owned_string("tracked branch was not found"))
}

impl Default for DigState {
    /// An empty state of the current version.
    fn default() -> (s: DigState)
        ensures
            s.version == DIG_STATE_VERSION,
            s.nodes@.len() == 0,
    {
        DigState { version: DIG_STATE_VERSION, nodes: Vec::new() }
    }
}

impl DigState {
    /// An empty state of the current version.
    pub fn empty() -> (s: DigState)
        ensures
            s.version == DIG_STATE_VERSION,
            s.nodes@.len() == 0,
    {
        DigState { version: DIG_STATE_VERSION, nodes: Vec::new() }
    }

    /// The position of the first active branch with the given name.
    pub fn position_by_name(&self, branch_name: &str) -> (r: Option<usize>)
        ensures
            match r {
                Some(i) => name_position(self.nodes@, branch_name@) == Some(i as int) && first_named(
                    self.nodes@,
                    i as int,
                    branch_name@,
                ),
                None => name_position(self.nodes@, branch_name@) is None,
            },
    {
        let mut i: usize = 0;
        while i < self.nodes.len()
            invariant
                i <= self.nodes.len(),
                forall|j: int| 0 <= j < i ==> !active_named(self.nodes@, j, branch_name@),
            decreases self.nodes.len() - i,
        {
            let node = &self.nodes[i];
            if !node.archived && str_equal(node.branch_name.as_str(), branch_name) {
                proof {
                    lemma_name_position(self.nodes@, branch_name@, i as int);
                }
                return Some(i);
            }
            i = i + 1;
        }
        proof {
            assert(!has_active_name(self.nodes@, branch_name@));
        }
        None
    }

    /// The position of the first active branch with the given id.
    pub fn position_by_id(&self, node_id: u128) -> (r: Option<usize>)
        ensures
            match r {
                Some(i) => id_position(self.nodes@, node_id) == Some(i as int) && first_with_id(
                    self.nodes@,
                    i as int,
                    node_id,
                ),
                None => id_position(self.nodes@, node_id) is None,
            },
    {
        let mut i: usize = 0;
        while i < self.nodes.len()
            invariant
                i <= self.nodes.len(),
                forall|j: int| 0 <= j < i ==> !active_with_id(self.nodes@, j, node_id),
            decreases self.nodes.len() - i,
        {
            let node = &self.nodes[i];
            if !node.archived && node.id == node_id {
                proof {
                    lemma_id_position(self.nodes@, node_id, i as int);
                }
                return Some(i);
            }
            i = i + 1;
        }
        proof {
            assert(!has_active_id(self.nodes@, node_id));
        }
        None
    }

    /// The first active branch with the given name.
    pub fn find_branch_by_name(&self, branch_name: &str) -> (r: Option<&BranchNode>)
        ensures
            match r {
                Some(n) => node_named(self.nodes@, branch_name@) == Some(*n),
                None => node_named(self.nodes@, branch_name@) is None,
            },
    {
        match self.position_by_name(branch_name) {
            Some(i) => Some(&self.nodes[i]),
            None => None,
        }
    }

    /// The first active branch with the given id.
    pub fn find_branch_by_id(&self, node_id: u128) -> (r: Option<&BranchNode>)
        ensures
            match r {
                Some(n) => node_with_id(self.nodes@, node_id) == Some(*n),
                None => node_with_id(self.nodes@, node_id) is None,
            },
    {
        match self.position_by_id(node_id) {
            Some(i) => Some(&self.nodes[i]),
            None => None,
        }
    }

    /// Tracks a new branch; a branch whose name is already tracked is refused.
    pub fn insert_branch(&mut self, node: BranchNode) -> (r: Result<(), DigError>)
        ensures
            final(self).version == old(self).version,
            match r {
                Ok(_) => {
                    &&& !has_active_name(old(self).nodes@, node.branch_name@)
                    &&& final(self).nodes@ == old(self).nodes@.push(node)
                },
                Err(e) => {
                    &&& has_active_name(old(self).nodes@, node.branch_name@)
                    &&& e.kind == ErrorKind::AlreadyExists
                    &&& e.message@ == "branch "@ + "'"@ + node.branch_name@ + "'"@
                        + " is already tracked by dig"@
                    &&& final(self).nodes@ == old(self).nodes@
                },
            },
    {
        match self.position_by_name(node.branch_name.as_str()) {
            Some(_) => {
                proof {
                    lemma_name_position_is_first(self.nodes@, node.branch_name@);
                }
                let message = message_with_name(
                    "branch ",
                    node.branch_name.as_str(),
                    " is already tracked by dig",
                );
                Err(DigError::new(ErrorKind::AlreadyExists, message))
            },
            None => {
                proof {
                    lemma_name_position_is_first(self.nodes@, node.branch_name@);
                }
                self.nodes.push(node);
                Ok(())
            },
        }
    }

    /// Marks the tracked branch with the given id as archived.
    pub fn archive_branch(&mut self, node_id: u128) -> (r: Result<(), DigError>)
        ensures
            final(self).version == old(self).version,
            match id_position(old(self).nodes@, node_id) {
                Some(i) => {
                    &&& r is Ok
                    &&& final(self).nodes@ == old(self).nodes@.update(
                        i,
                        BranchNode { archived: true, ..old(self).nodes@[i] },
                    )
                },
                None => {
                    &&& r matches Err(e) && e.kind == ErrorKind::NotFound && e.message@
                        == branch_not_found_message()
                    &&& final(self).nodes@ == old(self).nodes@
                },
            },
    {
        proof {
            lemma_id_position_is_first(self.nodes@, node_id);
        }
        match self.position_by_id(node_id) {
            Some(i) => {
                let mut node = self.nodes[i].duplicate();
                node.archived = true;
                self.nodes.set(i, node);
                Ok(())
            },
            None => Err(branch_not_found()),
        }
    }

    /// Moves the tracked branch with the given id under a new parent and base, and gives
    /// back its old parent and base.
    pub fn reparent_branch(&mut self, node_id: u128, new_parent: ParentRef, new_base_ref: String) -> (r:
        Result<(ParentRef, String), DigError>)
        ensures
            final(self).version == old(self).version,
            match id_position(old(self).nodes@, node_id) {
                Some(i) => {
                    &&& r matches Ok(old_values) && old_values.0 == old(self).nodes@[i].parent
                        && old_values.1 == old(self).nodes@[i].base_ref
                    &&& final(self).nodes@ == old(self).nodes@.update(
                        i,
                        BranchNode {
                            parent: new_parent,
                            base_ref: new_base_ref,
                            ..old(self).nodes@[i]
                        },
                    )
                },
                None => {
                    &&& r matches Err(e) && e.kind == ErrorKind::NotFound && e.message@
                        == branch_not_found_message()
                    &&& final(self).nodes@ == old(self).nodes@
                },
            },
    {
        proof {
            lemma_id_position_is_first(self.nodes@, node_id);
        }
        match self.position_by_id(node_id) {
            Some(i) => {
                let mut node = self.nodes[i].duplicate();
                let old_parent = node.parent;
                let old_base_ref = node.base_ref.clone();
                node.parent = new_parent;
                node.base_ref = new_base_ref;
                self.nodes.set(i, node);
                Ok((old_parent, old_base_ref))
            },
            None => Err(branch_not_found()),
        }
    }

    /// Records the pull request of the tracked branch with the given id.
    pub fn track_pull_request(&mut self, node_id: u128, pull_request: TrackedPullRequest) -> (r:
        Result<(), DigError>)
        ensures
            final(self).version == old(self).version,
            match id_position(old(self).nodes@, node_id) {
                Some(i) => {
                    &&& r is Ok
                    &&& final(self).nodes@ == old(self).nodes@.update(
                        i,
                        BranchNode { pull_request: Some(pull_request), ..old(self).nodes@[i] },
                    )
                },
                None => {
                    &&& r matches Err(e) && e.kind == ErrorKind::NotFound && e.message@
                        == branch_not_found_message()
                    &&& final(self).nodes@ == old(self).nodes@
                },
            },
    {
        proof {
            lemma_id_position_is_first(self.nodes@, node_id);
        }
        match self.position_by_id(node_id) {
            Some(i) => {
                let mut node = self.nodes[i].duplicate();
                node.pull_request = Some(pull_request);
                self.nodes.set(i, node);
                Ok(())
            },
            None => Err(branch_not_found()),
        }
    }
}

/// Which files the store bootstrap created.
#[derive(Debug, Clone, Copy, PartialEq, Eq, Structural, Default)]
pub struct StoreInitialization {
    pub created_config: bool,
    pub created_state: bool,
    pub created_events: bool,
}

impl StoreInitialization {
    /// Whether the bootstrap created any file.
    pub fn created_anything(&self) -> (r: bool)
        ensures
            r == (self.created_config || self.created_state || self.created_events),
    {
        self.created_config || self.created_state || self.created_events
    }
}

/// Why a tracked branch was archived.
#[derive(Debug, Clone, PartialEq, Eq)]
pub enum BranchArchiveReason {
    IntegratedIntoParent { parent_branch: String },
    Orphaned,
    DeletedLocally,
}

/// How a pull request came to be tracked for a branch.
#[derive(Debug, Clone, Copy, PartialEq, Eq, Structural)]
pub enum BranchPullRequestTrackedSource {
    Created,
    Adopted,
}

/// A branch inserted as active under a name no active branch has is what a lookup by that
/// name finds afterwards.
pub proof fn lemma_insert_then_find(nodes: Seq<BranchNode>, node: BranchNode)
    requires
        !has_active_name(nodes, node.branch_name@),
        !node.archived,
    ensures
        node_named(nodes.push(node), node.branch_name@) == Some(node),
{
    let after = nodes.push(node);
    let i = nodes.len() as int;
    assert forall|j: int| 0 <= j < i implies !active_named(after, j, node.branch_name@) by {
        assert(after[j] == nodes[j]);
        if active_named(after, j, node.branch_name@) {
            assert(active_named(nodes, j, node.branch_name@));
        }
    }
    assert(first_named(after, i, node.branch_name@));
    lemma_name_position(after, node.branch_name@, i);
}

/// Whether no two active branches share an id.
pub open spec fn active_ids_unique(nodes: Seq<BranchNode>) -> bool {
    forall|i: int, j: int|
        0 <= i < j < nodes.len() && !nodes[i].archived && !nodes[j].archived ==> #[trigger] nodes[i].id
            != #[trigger] nodes[j].id
}

/// Once the branch with an id is archived, a lookup by that id finds nothing, when no two
/// active branches share an id.
pub proof fn lemma_archive_then_find(nodes: Seq<BranchNode>, id: u128)
    requires
        active_ids_unique(nodes),
        id_position(nodes, id) is Some,
    ensures
        node_with_id(
            nodes.update(id_position(nodes, id).unwrap(), BranchNode { archived: true, ..nodes[id_position(nodes, id).unwrap()] }),
            id,
        ) is None,
{
    let i = id_position(nodes, id).unwrap();
    lemma_id_position_is_first(nodes, id);
    let after = nodes.update(i, BranchNode { archived: true, ..nodes[i] });
    assert forall|j: int| !active_with_id(after, j, id) by {
        if active_with_id(after, j, id) && j != i {
            assert(after[j] == nodes[j]);
            if j < i {
                assert(!active_with_id(nodes, j, id));
            } else {
                assert(nodes[i].id != nodes[j].id);
            }
        }
    }
    assert(!has_active_id(after, id));
}

} // verus!
