use vstd::prelude::*;

use crate::model::{ParentRef, DIG_OPERATION_VERSION};
use crate::restack::{action_views, preview_of, ActionView, RestackAction, RestackPreview};

verus! {

/// A commit whose follow-up restack is under way.
#[derive(Debug, Clone, PartialEq, Eq)]
pub struct PendingCommitOperation {
    pub current_branch: String,
    pub summary_line: Option<String>,
    pub recent_commits: Vec<PendingCommitEntry>,
}

/// A branch adoption whose restack is under way.
#[derive(Debug, Clone, PartialEq, Eq)]
pub struct PendingAdoptOperation {
    pub original_branch: String,
    pub branch_name: String,
    pub parent_branch_name: String,
    pub parent: ParentRef,
}

/// A merge whose restack is under way.
#[derive(Debug, Clone, PartialEq, Eq)]
pub struct PendingMergeOperation {
    pub trunk_branch: String,
    pub source_branch_name: String,
    pub target_branch_name: String,
    pub source_node_id: u128,
    pub switched_to_target_from: Option<String>,
}

/// A cleanup whose restack is under way.
#[derive(Debug, Clone, PartialEq, Eq)]
pub struct PendingCleanOperation {
    pub trunk_branch: String,
    pub original_branch: String,
    pub switched_to_trunk_from: Option<String>,
    pub current_candidate: PendingCleanCandidate,
    pub remaining_candidates: Vec<PendingCleanCandidate>,
    pub untracked_branches: Vec<String>,
    pub deleted_branches: Vec<String>,
    pub restacked_branches: Vec<RestackPreview>,
}

/// A branch that a pending cleanup removes.
#[derive(Debug, Clone, PartialEq, Eq)]
pub struct PendingCleanCandidate {
    pub branch_name: String,
    pub kind: PendingCleanCandidateKind,
}

/// Why a pending cleanup removes a branch.
#[derive(Debug, Clone, Copy, PartialEq, Eq, Structural)]
pub enum PendingCleanCandidateKind {
    DeletedLocally,
    IntegratedIntoParent,
}

/// An orphaning whose restack is under way.
#[derive(Debug, Clone, PartialEq, Eq)]
pub struct PendingOrphanOperation {
    pub original_branch: String,
    pub branch_name: String,
    pub parent_branch_name: String,
    pub node_id: u128,
}

/// A reparenting whose restack is under way.
#[derive(Debug, Clone, PartialEq, Eq)]
pub struct PendingReparentOperation {
    pub original_branch: String,
    pub branch_name: String,
    pub parent_branch_name: String,
}

/// A sync whose restack is under way.
#[derive(Debug, Clone, PartialEq, Eq)]
pub struct PendingSyncOperation {
    pub original_branch: String,
    pub deleted_branches: Vec<String>,
    pub restacked_branches: Vec<RestackPreview>,
    pub phase: PendingSyncPhase,
    pub step_branch_name: String,
}

/// The phase a pending sync is in.
#[derive(Debug, Clone, Copy, PartialEq, Eq, Structural)]
pub enum PendingSyncPhase {
    ReconcileDeletedLocalBranches,
    RestackOutdatedLocalStacks,
}

/// A commit listed by a pending commit operation.
#[derive(Debug, Clone, PartialEq, Eq)]
pub struct PendingCommitEntry {
    pub hash: String,
    pub refs: Vec<String>,
    pub is_head: bool,
    pub title: String,
}

/// The command that started a pending restack, with what it needs to finish.
#[derive(Debug, Clone, PartialEq, Eq)]
pub enum PendingOperationKind {
    Commit(PendingCommitOperation),
    Adopt(PendingAdoptOperation),
    Merge(PendingMergeOperation),
    Clean(PendingCleanOperation),
    Orphan(PendingOrphanOperation),
    Reparent(PendingReparentOperation),
    Sync(PendingSyncOperation),
}

/// How a paused operation goes on once its restacks ran to the end or paused again.
#[derive(Debug, Clone, Copy, PartialEq, Eq, Structural)]
pub enum ResumeStep {
    /// Stop and report failure: a restack paused again.
    Paused,
    /// Finish the adoption.
    FinishAdopt,
    /// Finish removing the branch from tracking.
    CompleteOrphan,
    /// Finish moving the branch.
    CompleteReparent,
    /// Finish the merge.
    CompleteMerge,
    /// Archive the step branch and go on with the local sync.
    ContinueSync,
    /// Hand the restack's outcome to the cleanup run, paused or not.
    ContinueClean,
    /// Report the restacked branches and finish.
    ReportRestacked,
}

/// How a paused operation of the given kind goes on: a cleanup takes any outcome of its
/// restack; every other kind stops where the restack paused again.
pub open spec fn resume_step_spec(k: PendingOperationKind, paused: bool) -> ResumeStep {
    match k {
        PendingOperationKind::Clean(_) => ResumeStep::ContinueClean,
        _ => if paused {
            ResumeStep::Paused
        } else {
            match k {
                PendingOperationKind::Adopt(_) => ResumeStep::FinishAdopt,
                PendingOperationKind::Orphan(_) => ResumeStep::CompleteOrphan,
                PendingOperationKind::Reparent(_) => ResumeStep::CompleteReparent,
                PendingOperationKind::Merge(_) => ResumeStep::CompleteMerge,
                PendingOperationKind::Sync(_) => ResumeStep::ContinueSync,
                _ => ResumeStep::ReportRestacked,
            }
        },
    }
}

/// Decides how a paused operation goes on after `sync --continue` ran its restacks.
pub fn resume_step(kind: &PendingOperationKind, paused: bool) -> (r: ResumeStep)
    ensures
        r == resume_step_spec(*kind, paused),
{
    match kind {
        PendingOperationKind::Clean(_) => ResumeStep::ContinueClean,
        _ => if paused {
            ResumeStep::Paused
        } else {
            match kind {
                PendingOperationKind::Adopt(_) => ResumeStep::FinishAdopt,
                PendingOperationKind::Orphan(_) => ResumeStep::CompleteOrphan,
                PendingOperationKind::Reparent(_) => ResumeStep::CompleteReparent,
                PendingOperationKind::Merge(_) => ResumeStep::CompleteMerge,
                PendingOperationKind::Sync(_) => ResumeStep::ContinueSync,
                _ => ResumeStep::ReportRestacked,
            }
        },
    }
}

/// The command whose operation a step brings to its end, if the step ends one.
pub open spec fn completed_command(s: ResumeStep) -> Option<Seq<char>> {
    match s {
        ResumeStep::Paused => None,
        ResumeStep::FinishAdopt => Some("adopt"@),
        ResumeStep::CompleteOrphan => Some("orphan"@),
        ResumeStep::CompleteReparent => Some("reparent"@),
        ResumeStep::CompleteMerge => Some("merge"@),
        ResumeStep::ContinueSync => Some("sync"@),
        ResumeStep::ContinueClean => Some("clean"@),
        ResumeStep::ReportRestacked => Some("commit"@),
    }
}

/// A resumed operation is carried on by the command that started it: a cleanup takes any
/// outcome of its restack, any other operation stops where its restack paused again, and once
/// the restacks ran to the end the step ends the operation of the very command that started
/// it (a finished merge completes that merge, a finished orphan that orphan, and so on).
pub proof fn lemma_resume_ends_own_operation(k: PendingOperationKind, paused: bool)
    ensures
        (k is Clean || !paused) ==> completed_command(resume_step_spec(k, paused)) == Some(command_name_spec(k)),
        (!(k is Clean) && paused) ==> resume_step_spec(k, paused) == ResumeStep::Paused,
{
}

/// The name of the command that started a pending operation.
pub open spec fn command_name_spec(k: PendingOperationKind) -> Seq<char> {
    match k {
        PendingOperationKind::Commit(_) => "commit"@,
        PendingOperationKind::Adopt(_) => "adopt"@,
        PendingOperationKind::Merge(_) => "merge"@,
        PendingOperationKind::Clean(_) => "clean"@,
        PendingOperationKind::Orphan(_) => "orphan"@,
        PendingOperationKind::Reparent(_) => "reparent"@,
        PendingOperationKind::Sync(_) => "sync"@,
    }
}

impl PendingOperationKind {
    /// The name of the command that started this operation.
    pub fn command_name(&self) -> (r: &'static str)
        ensures
            r@ == command_name_spec(*self),
    {
        match self {
            PendingOperationKind::Commit(_) => "commit",
            PendingOperationKind::Adopt(_) => "adopt",
            PendingOperationKind::Merge(_) => "merge",
            PendingOperationKind::Clean(_) => "clean",
            PendingOperationKind::Orphan(_) => "orphan",
            PendingOperationKind::Reparent(_) => "reparent",
            PendingOperationKind::Sync(_) => "sync",
        }
    }
}

/// The rebases of a pending operation: the one under way, those still to come, and those done.
#[derive(Debug, Clone, PartialEq, Eq)]
pub struct PendingRestackState {
    pub active_action: RestackAction,
    pub remaining_actions: Vec<RestackAction>,
    pub completed_branches: Vec<RestackPreview>,
}

/// An operation interrupted or still going: the command that started it and its rebases.
#[derive(Debug, Clone, PartialEq, Eq)]
pub struct PendingOperationState {
    pub version: u32,
    pub origin: PendingOperationKind,
    pub restack: PendingRestackState,
}

/// A preview as plain values.
pub open spec fn preview_view(p: RestackPreview) -> (Seq<char>, Seq<char>, bool) {
    (p.branch_name@, p.onto_branch@, p.parent_changed)
}

/// The rebases not yet done: the active one, then the remaining ones.
pub open spec fn queue_of(op: PendingOperationState) -> Seq<ActionView> {
    seq![op.restack.active_action@] + action_views(op.restack.remaining_actions@)
}

/// The previews of the done rebases, in order.
pub open spec fn completed_of(op: PendingOperationState) -> Seq<(Seq<char>, Seq<char>, bool)> {
    op.restack.completed_branches@.map_values(|p: RestackPreview| preview_view(p))
}

/// The previews of every rebase of an operation: those done, then those to come.
pub open spec fn history_of(op: PendingOperationState) -> Seq<(Seq<char>, Seq<char>, bool)> {
    completed_of(op) + queue_of(op).map_values(|a: ActionView| preview_of(a))
}

impl PendingOperationState {
    /// Starts an operation whose rebases are `actions`, the first one active; there is nothing
    /// to start without actions.
    pub fn start(origin: PendingOperationKind, actions: Vec<RestackAction>) -> (r: Option<Self>)
        ensures
            match r {
                None => actions@.len() == 0,
                Some(op) => {
                    &&& actions@.len() > 0
                    &&& op.version == DIG_OPERATION_VERSION
                    &&& op.origin == origin
                    &&& op.restack.active_action == actions@[0]
                    &&& op.restack.remaining_actions@ == actions@.drop_first()
                    &&& op.restack.completed_branches@.len() == 0
                    &&& history_of(op) == action_views(actions@).map_values(|a: ActionView| preview_of(a))
                },
            },
    {
        let mut actions = actions;
        if actions.len() == 0 {
            return None;
        }
        let ghost all = actions@;
        let active_action = actions.remove(0);
        let op = PendingOperationState {
            version: DIG_OPERATION_VERSION,
            origin,
            restack: PendingRestackState {
                active_action,
                remaining_actions: actions,
                completed_branches: Vec::new(),
            },
        };
        proof {
            assert(op.restack.remaining_actions@ =~= all.drop_first());
            assert(queue_of(op) =~= action_views(all));
            assert(completed_of(op) =~= Seq::<(Seq<char>, Seq<char>, bool)>::empty());
            assert(history_of(op) =~= action_views(all).map_values(|a: ActionView| preview_of(a)));
        }
        Some(op)
    }

    /// The rebase under way.
    pub fn active_action(&self) -> (r: &RestackAction)
        ensures
            *r == self.restack.active_action,
    {
        &self.restack.active_action
    }

    /// The previews of the rebases done so far.
    pub fn completed_branches(&self) -> (r: &[RestackPreview])
        ensures
            r@ == self.restack.completed_branches@,
    {
        self.restack.completed_branches.as_slice()
    }

    /// Marks the active rebase done: gives back its preview, and the operation with the next
    /// rebase active, or nothing when it was the last.
    pub fn advance_after_success(self) -> (r: (RestackPreview, Option<Self>))
        ensures
            preview_view(r.0) == preview_of(self.restack.active_action@),
            match r.1 {
                None => {
                    &&& self.restack.remaining_actions@.len() == 0
                    &&& completed_of(self).push(preview_view(r.0)) == history_of(self)
                },
                Some(next) => {
                    &&& self.restack.remaining_actions@.len() > 0
                    &&& next.version == self.version
                    &&& next.origin == self.origin
                    &&& next.restack.active_action == self.restack.remaining_actions@[0]
                    &&& next.restack.remaining_actions@ == self.restack.remaining_actions@.drop_first()
                    &&& completed_of(next) == completed_of(self).push(preview_view(r.0))
                    &&& queue_of(next) == queue_of(self).drop_first()
                    &&& history_of(next) == history_of(self)
                },
            },
    {
        let mut op = self;
        let ghost old_op = op;
        let preview = RestackPreview {
            branch_name: op.restack.active_action.branch_name.clone(),
            onto_branch: op.restack.active_action.new_base.branch_name.clone(),
            parent_changed: op.restack.active_action.new_parent.is_some(),
        };
        op.restack.completed_branches.push(preview.duplicate());
        proof {
            assert(completed_of(op) =~= completed_of(old_op).push(preview_view(preview)));
        }
        if op.restack.remaining_actions.len() == 0 {
            proof {
                assert(queue_of(old_op) =~= seq![old_op.restack.active_action@]);
                assert(history_of(old_op) =~= completed_of(old_op).push(preview_view(preview)));
            }
            return (preview, None);
        }
        op.restack.active_action = op.restack.remaining_actions.remove(0);
        proof {
            assert(op.restack.remaining_actions@ =~= old_op.restack.remaining_actions@.drop_first());
            assert(queue_of(op) =~= queue_of(old_op).drop_first());
            assert(history_of(op) =~= history_of(old_op));
        }
        (preview, Some(op))
    }
}

} // verus!
