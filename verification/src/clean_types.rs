use vstd::prelude::*;

use crate::graph::BranchTreeNode;
use crate::restack::RestackPreview;
use crate::text::str_equal;

verus! {

/// What a cleanup looks at: every tracked branch, or one.
#[derive(Debug, Clone, Default, PartialEq, Eq)]
pub struct CleanOptions {
    pub branch_name: Option<String>,
}

/// The subtree a cleanup candidate carries.
pub type CleanTreeNode = BranchTreeNode;

/// Why a branch can be cleaned up.
#[derive(Debug, Clone, PartialEq, Eq)]
pub enum CleanReason {
    DeletedLocally,
    IntegratedIntoParent { parent_branch: String },
}

/// A branch a cleanup removes, with the subtree it carries and the rebases its removal causes.
#[derive(Debug)]
pub struct CleanCandidate {
    pub node_id: u128,
    pub branch_name: String,
    pub parent_branch_name: String,
    pub reason: CleanReason,
    pub tree: BranchTreeNode,
    pub restack_plan: Vec<RestackPreview>,
    pub depth: usize,
}

impl CleanCandidate {
    /// Whether the branch is cleaned because it was deleted locally.
    pub fn is_deleted_locally(&self) -> (r: bool)
        ensures
            r == (self.reason is DeletedLocally),
    {
        match self.reason {
            CleanReason::DeletedLocally => true,
            _ => false,
        }
    }

    /// Whether the branch is cleaned because it is integrated into its parent.
    pub fn is_integrated(&self) -> (r: bool)
        ensures
            r == (self.reason is IntegratedIntoParent),
    {
        match self.reason {
            CleanReason::IntegratedIntoParent { .. } => true,
            _ => false,
        }
    }
}

/// Why a branch cannot be cleaned up.
#[derive(Debug, Clone, PartialEq, Eq)]
pub enum CleanBlockReason {
    BranchNotTracked,
    BranchMissingLocally,
    ParentMissingLocally { parent_branch: String },
    ParentMissingFromDig,
    NotIntegrated { parent_branch: String },
    DescendantsMissingLocally { branch_names: Vec<String> },
}

/// A branch that cannot be cleaned up, and why.
#[derive(Debug, Clone, PartialEq, Eq)]
pub struct BlockedBranch {
    pub branch_name: String,
    pub reason: CleanBlockReason,
}

/// The branches a cleanup removes and those it leaves, and why.
#[derive(Debug)]
pub struct CleanPlan {
    pub trunk_branch: String,
    pub current_branch: String,
    pub requested_branch_name: Option<String>,
    pub candidates: Vec<CleanCandidate>,
    pub blocked: Vec<BlockedBranch>,
}

/// The number of candidates among the first `k` that were deleted locally (`deleted`) or are
/// integrated into their parent (`!deleted`).
pub open spec fn count_upto(cs: Seq<CleanCandidate>, k: int, deleted: bool) -> nat
    decreases k,
{
    if k <= 0 || k > cs.len() {
        0
    } else {
        count_upto(cs, k - 1, deleted) + if (deleted && cs[k - 1].reason is DeletedLocally) || (!deleted
            && cs[k - 1].reason is IntegratedIntoParent) {
            1nat
        } else {
            0nat
        }
    }
}

proof fn lemma_count_upto_bound(cs: Seq<CleanCandidate>, k: int, deleted: bool)
    requires
        0 <= k <= cs.len(),
    ensures
        count_upto(cs, k, deleted) <= k,
    decreases k,
{
    if k > 0 {
        lemma_count_upto_bound(cs, k - 1, deleted);
    }
}

impl CleanPlan {
    /// Whether the checked out branch is among the candidates.
    pub fn targets_current_branch(&self) -> (r: bool)
        ensures
            r == exists|i: int|
                0 <= i < self.candidates@.len() && #[trigger] self.candidates@[i].branch_name@
                    == self.current_branch@,
    {
        let mut i: usize = 0;
        while i < self.candidates.len()
            invariant
                i <= self.candidates.len(),
                forall|j: int| 0 <= j < i ==> #[trigger] self.candidates@[j].branch_name@ != self.current_branch@,
            decreases self.candidates.len() - i,
        {
            if str_equal(self.candidates[i].branch_name.as_str(), self.current_branch.as_str()) {
                return true;
            }
            i = i + 1;
        }
        false
    }

    /// The number of candidates deleted locally.
    pub fn deleted_local_count(&self) -> (r: usize)
        ensures
            r == count_upto(self.candidates@, self.candidates@.len() as int, true),
    {
        let ghost p: bool = true;
        let mut n: usize = 0;
        let mut i: usize = 0;
        while i < self.candidates.len()
            invariant
                i <= self.candidates.len(),
                p,
                n == count_upto(self.candidates@, i as int, p),
            decreases self.candidates.len() - i,
        {
            proof {
                lemma_count_upto_bound(self.candidates@, i as int, p);
            }
            if self.candidates[i].is_deleted_locally() {
                n = n + 1;
            }
            i = i + 1;
        }
        n
    }

    /// The number of candidates integrated into their parent.
    pub fn merged_count(&self) -> (r: usize)
        ensures
            r == count_upto(self.candidates@, self.candidates@.len() as int, false),
    {
        let ghost p: bool = false;
        let mut n: usize = 0;
        let mut i: usize = 0;
        while i < self.candidates.len()
            invariant
                i <= self.candidates.len(),
                !p,
                n == count_upto(self.candidates@, i as int, p),
            decreases self.candidates.len() - i,
        {
            proof {
                lemma_count_upto_bound(self.candidates@, i as int, p);
            }
            if self.candidates[i].is_integrated() {
                n = n + 1;
            }
            i = i + 1;
        }
        n
    }
}

/// A step of a running cleanup, as the progress display sees it.
#[derive(Debug, Clone, PartialEq, Eq)]
pub enum CleanEvent {
    SwitchingToTrunk { from_branch: String, to_branch: String },
    SwitchedToTrunk { from_branch: String, to_branch: String },
    RebaseStarted { branch_name: String, onto_branch: String },
    RebaseProgress {
        branch_name: String,
        onto_branch: String,
        current_commit: usize,
        total_commits: usize,
    },
    RebaseCompleted { branch_name: String, onto_branch: String },
    DeleteStarted { branch_name: String },
    DeleteCompleted { branch_name: String },
    ArchiveStarted { branch_name: String },
    ArchiveCompleted { branch_name: String },
}

} // verus!
