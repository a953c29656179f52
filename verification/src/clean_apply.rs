use vstd::prelude::*;

use crate::branch::named_error;
use crate::clean_types::{CleanPlan, CleanReason};
use crate::deleted_local::{
    branch_not_tracked_error, plan_deleted_local_step_for_branch, replacement_walk, restack_actions_for_step,
};
use crate::error::{DigError, ErrorKind};
use crate::graph::{children_spec, cycle_message, subtree_walk, BranchGraph, SubtreeFailure};
use crate::layout::opt_view;
use crate::model::{branch_not_found_message, node_named, node_with_id, parent_name_spec, BranchNode, DigState};
use crate::pending::{preview_view, PendingCleanCandidate, PendingCleanCandidateKind, PendingCleanOperation};
use crate::restack::{
    action_views, deleted_list, detach_list, outcome, plan_after_branch_detach, PlanError, RepoFacts, RestackAction,
    RestackBaseTarget, RestackPreview,
};
use crate::text::{copy_strings, push_string, to_owned_string, views};

verus! {

/// How a piece of outside work ended: whether it succeeded, and the exit code it gave.
#[derive(Debug, Clone, Copy, PartialEq, Eq, Structural)]
pub struct RunStatus {
    pub success: bool,
    pub code: Option<i32>,
}

/// The status of work that went through.
pub open spec fn succeeded_status() -> RunStatus {
    RunStatus { success: true, code: Some(0) }
}

impl RunStatus {
    /// The status of work that went through.
    pub fn succeeded() -> (s: RunStatus)
        ensures
            s == succeeded_status(),
    {
        RunStatus { success: true, code: Some(0) }
    }
}

/// Where a cleanup run stands: the outside work it waits for next.
#[derive(Debug, Clone, Copy, PartialEq, Eq, Structural)]
pub enum CleanPhase {
    SwitchingToTrunk,
    Restacking,
    Completing,
    CheckingOutTrunk,
    Restoring,
    Finished,
}

/// A candidate of a pending cleanup as plain values.
pub open spec fn candidate_view(c: PendingCleanCandidate) -> (Seq<char>, PendingCleanCandidateKind) {
    (c.branch_name@, c.kind)
}

/// The candidates of a pending cleanup as plain values.
pub open spec fn candidates_view(cs: Seq<PendingCleanCandidate>) -> Seq<(Seq<char>, PendingCleanCandidateKind)> {
    cs.map_values(|c: PendingCleanCandidate| candidate_view(c))
}

/// Previews as plain values.
pub open spec fn previews_view(ps: Seq<RestackPreview>) -> Seq<(Seq<char>, Seq<char>, bool)> {
    ps.map_values(|p: RestackPreview| preview_view(p))
}

/// What a cleanup reports when it ends.
#[derive(Debug)]
pub struct CleanApplyOutcome {
    pub status: RunStatus,
    pub switched_to_trunk_from: Option<String>,
    pub restored_original_branch: Option<String>,
    pub untracked_branches: Vec<String>,
    pub deleted_branches: Vec<String>,
    pub restacked_branches: Vec<RestackPreview>,
    pub failure_output: Option<String>,
    pub paused: bool,
}

/// A cleanup run: the candidates it removes one after the other, what it did so far, and
/// where it stands.
#[derive(Debug)]
pub struct CleanRun {
    pub trunk_branch: String,
    pub original_branch: String,
    pub switched_to_trunk_from: Option<String>,
    pub candidates: Vec<PendingCleanCandidate>,
    pub current: usize,
    pub untracked_branches: Vec<String>,
    pub deleted_branches: Vec<String>,
    pub restacked_branches: Vec<RestackPreview>,
    pub trunk_checkout_from: Option<String>,
    pub restored_original_branch: Option<String>,
    pub failure_output: Option<String>,
    pub paused: bool,
    pub status: RunStatus,
    pub phase: CleanPhase,
}

/// A cleanup run as plain values.
pub struct CleanRunView {
    pub trunk_branch: Seq<char>,
    pub original_branch: Seq<char>,
    pub switched_to_trunk_from: Option<Seq<char>>,
    pub candidates: Seq<(Seq<char>, PendingCleanCandidateKind)>,
    pub current: nat,
    pub untracked_branches: Seq<Seq<char>>,
    pub deleted_branches: Seq<Seq<char>>,
    pub restacked_branches: Seq<(Seq<char>, Seq<char>, bool)>,
    pub trunk_checkout_from: Option<Seq<char>>,
    pub restored_original_branch: Option<Seq<char>>,
    pub failure_output: Option<Seq<char>>,
    pub paused: bool,
    pub status: RunStatus,
    pub phase: CleanPhase,
}

impl View for CleanRun {
    type V = CleanRunView;

    open spec fn view(&self) -> CleanRunView {
        CleanRunView {
            trunk_branch: self.trunk_branch@,
            original_branch: self.original_branch@,
            switched_to_trunk_from: opt_view(self.switched_to_trunk_from),
            candidates: candidates_view(self.candidates@),
            current: self.current as nat,
            untracked_branches: views(self.untracked_branches@),
            deleted_branches: views(self.deleted_branches@),
            restacked_branches: previews_view(self.restacked_branches@),
            trunk_checkout_from: opt_view(self.trunk_checkout_from),
            restored_original_branch: opt_view(self.restored_original_branch),
            failure_output: opt_view(self.failure_output),
            paused: self.paused,
            status: self.status,
            phase: self.phase,
        }
    }
}

/// What the outside work a cleanup run waited for gave.
#[derive(Debug)]
pub enum CleanRunEvent {
    /// The switch to trunk before the cleanup, and the branch it left if it switched.
    Switched { status: RunStatus, switched_from: Option<String> },
    /// The rebases of the current candidate: whether they paused on a conflict, and those done.
    Restacked {
        status: RunStatus,
        paused: bool,
        restacked: Vec<RestackPreview>,
        failure_output: Option<String>,
    },
    /// The removal of the current candidate: archived, or its local branch deleted.
    Completed { status: RunStatus },
    /// The checkout of trunk after the candidates, and the branch it left if it switched.
    CheckedOut { status: RunStatus, switched_from: Option<String> },
    /// The return to the original branch, and that branch when a switch was needed.
    Restored { status: RunStatus, restored: Option<String> },
}

/// An event as plain values.
pub enum CleanRunEventView {
    Switched { status: RunStatus, switched_from: Option<Seq<char>> },
    Restacked {
        status: RunStatus,
        paused: bool,
        restacked: Seq<(Seq<char>, Seq<char>, bool)>,
        failure_output: Option<Seq<char>>,
    },
    Completed { status: RunStatus },
    CheckedOut { status: RunStatus, switched_from: Option<Seq<char>> },
    Restored { status: RunStatus, restored: Option<Seq<char>> },
}

impl View for CleanRunEvent {
    type V = CleanRunEventView;

    open spec fn view(&self) -> CleanRunEventView {
        match self {
            CleanRunEvent::Switched { status, switched_from } => CleanRunEventView::Switched {
                status: *status,
                switched_from: opt_view(*switched_from),
            },
            CleanRunEvent::Restacked { status, paused, restacked, failure_output } => CleanRunEventView::Restacked {
                status: *status,
                paused: *paused,
                restacked: previews_view(restacked@),
                failure_output: opt_view(*failure_output),
            },
            CleanRunEvent::Completed { status } => CleanRunEventView::Completed { status: *status },
            CleanRunEvent::CheckedOut { status, switched_from } => CleanRunEventView::CheckedOut {
                status: *status,
                switched_from: opt_view(*switched_from),
            },
            CleanRunEvent::Restored { status, restored } => CleanRunEventView::Restored {
                status: *status,
                restored: opt_view(*restored),
            },
        }
    }
}

/// The run after the current candidate was removed: the next candidate, or the checkout of
/// trunk after the last one.
pub open spec fn after_candidate(r: CleanRunView) -> CleanRunView {
    let n = r.current + 1;
    CleanRunView {
        current: n,
        status: succeeded_status(),
        phase: if n < r.candidates.len() {
            CleanPhase::Restacking
        } else {
            CleanPhase::CheckingOutTrunk
        },
        ..r
    }
}

/// The run that ends with the given status.
pub open spec fn finished_with(r: CleanRunView, status: RunStatus) -> CleanRunView {
    CleanRunView { status, phase: CleanPhase::Finished, ..r }
}

/// What an event makes of a run. An event that is not the one the run waits for changes
/// nothing.
pub open spec fn advance_spec(r: CleanRunView, e: CleanRunEventView) -> CleanRunView {
    match (r.phase, e) {
        (CleanPhase::SwitchingToTrunk, CleanRunEventView::Switched { status, switched_from }) => if !status.success {
            finished_with(r, status)
        } else {
            CleanRunView { switched_to_trunk_from: switched_from, phase: CleanPhase::Restacking, ..r }
        },
        (CleanPhase::Restacking, CleanRunEventView::Restacked { status, paused, restacked, failure_output }) => {
            let r1 = CleanRunView { restacked_branches: r.restacked_branches + restacked, ..r };
            if paused {
                CleanRunView { paused: true, failure_output, ..finished_with(r1, status) }
            } else {
                CleanRunView { phase: CleanPhase::Completing, ..r1 }
            }
        },
        (CleanPhase::Completing, CleanRunEventView::Completed { status }) => if r.current < r.candidates.len() {
            let c = r.candidates[r.current as int];
            match c.1 {
                PendingCleanCandidateKind::DeletedLocally => after_candidate(
                    CleanRunView { untracked_branches: r.untracked_branches.push(c.0), ..r },
                ),
                PendingCleanCandidateKind::IntegratedIntoParent => if status.success {
                    after_candidate(CleanRunView { deleted_branches: r.deleted_branches.push(c.0), ..r })
                } else {
                    finished_with(r, status)
                },
            }
        } else {
            r
        },
        (CleanPhase::CheckingOutTrunk, CleanRunEventView::CheckedOut { status, switched_from }) => {
            let r1 = CleanRunView { trunk_checkout_from: switched_from, ..r };
            if switched_from is Some {
                if !status.success {
                    finished_with(r1, status)
                } else {
                    CleanRunView { status, phase: CleanPhase::Restoring, ..r1 }
                }
            } else {
                CleanRunView { phase: CleanPhase::Restoring, ..r1 }
            }
        },
        (CleanPhase::Restoring, CleanRunEventView::Restored { status, restored }) => match restored {
            Some(b) => if !status.success {
                finished_with(r, status)
            } else {
                CleanRunView { restored_original_branch: Some(b), ..finished_with(r, status) }
            },
            None => if r.original_branch == r.trunk_branch && r.trunk_checkout_from is Some {
                CleanRunView {
                    restored_original_branch: Some(r.original_branch),
                    phase: CleanPhase::Finished,
                    ..r
                }
            } else {
                CleanRunView { phase: CleanPhase::Finished, ..r }
            },
        },
        _ => r,
    }
}

/// The run that starts a cleanup of the given candidates from the branch checked out: it first
/// switches to trunk when a candidate is checked out elsewhere than trunk; a cleanup without
/// candidates is done at once.
pub open spec fn start_spec(
    trunk: Seq<char>,
    current_branch: Seq<char>,
    candidates: Seq<(Seq<char>, PendingCleanCandidateKind)>,
    targets_current_branch: bool,
) -> CleanRunView {
    CleanRunView {
        trunk_branch: trunk,
        original_branch: current_branch,
        switched_to_trunk_from: None,
        candidates,
        current: 0,
        untracked_branches: Seq::empty(),
        deleted_branches: Seq::empty(),
        restacked_branches: Seq::empty(),
        trunk_checkout_from: None,
        restored_original_branch: None,
        failure_output: None,
        paused: false,
        status: succeeded_status(),
        phase: if candidates.len() == 0 {
            CleanPhase::Finished
        } else if targets_current_branch && current_branch != trunk {
            CleanPhase::SwitchingToTrunk
        } else {
            CleanPhase::Restacking
        },
    }
}

/// A pending cleanup as plain values: trunk, the original branch, the branch left for trunk,
/// the current candidate, the remaining ones, and what was done so far.
pub open spec fn pending_clean_view(op: PendingCleanOperation) -> (
    Seq<char>,
    Seq<char>,
    Option<Seq<char>>,
    (Seq<char>, PendingCleanCandidateKind),
    Seq<(Seq<char>, PendingCleanCandidateKind)>,
    Seq<Seq<char>>,
    Seq<Seq<char>>,
    Seq<(Seq<char>, Seq<char>, bool)>,
) {
    (
        op.trunk_branch@,
        op.original_branch@,
        opt_view(op.switched_to_trunk_from),
        candidate_view(op.current_candidate),
        candidates_view(op.remaining_candidates@),
        views(op.untracked_branches@),
        views(op.deleted_branches@),
        previews_view(op.restacked_branches@),
    )
}

/// The run that resumes a cleanup whose rebases paused: it waits for the rest of those
/// rebases, then goes on with the remaining candidates.
pub open spec fn resume_spec(op: PendingCleanOperation) -> CleanRunView {
    let v = pending_clean_view(op);
    CleanRunView {
        trunk_branch: v.0,
        original_branch: v.1,
        switched_to_trunk_from: v.2,
        candidates: seq![v.3] + v.4,
        current: 0,
        untracked_branches: v.5,
        deleted_branches: v.6,
        restacked_branches: v.7,
        trunk_checkout_from: None,
        restored_original_branch: None,
        failure_output: None,
        paused: false,
        status: succeeded_status(),
        phase: CleanPhase::Restacking,
    }
}

/// The next piece of outside work a cleanup run asks for, or its end.
#[derive(Debug)]
pub enum CleanStep {
    /// Switch from the branch checked out to trunk.
    SwitchToTrunk { from_branch: String, to_branch: String },
    /// Rebase what the current candidate's removal moves, recording this pending cleanup.
    Restack { operation: PendingCleanOperation },
    /// Archive the current candidate, or delete its local branch and archive it.
    Complete { candidate: PendingCleanCandidate },
    /// Check out trunk if it is not checked out.
    CheckoutTrunk { trunk_branch: String },
    /// Return to the original branch if it is not checked out.
    RestoreOriginal { original_branch: String },
    /// The cleanup is over.
    Finish { outcome: CleanApplyOutcome },
}

/// Whether `o` reports the run `r` as it ended.
pub open spec fn outcome_matches(o: CleanApplyOutcome, r: CleanRunView) -> bool {
    &&& o.status == r.status
    &&& opt_view(o.switched_to_trunk_from) == r.switched_to_trunk_from
    &&& opt_view(o.restored_original_branch) == r.restored_original_branch
    &&& views(o.untracked_branches@) == r.untracked_branches
    &&& views(o.deleted_branches@) == r.deleted_branches
    &&& previews_view(o.restacked_branches@) == r.restacked_branches
    &&& opt_view(o.failure_output) == r.failure_output
    &&& o.paused == r.paused
}

/// Whether `s` is the step the run `r` asks for.
pub open spec fn step_matches(s: CleanStep, r: CleanRunView) -> bool {
    if (r.phase == CleanPhase::Restacking || r.phase == CleanPhase::Completing) && r.current >= r.candidates.len() {
        s matches CleanStep::Finish { outcome } && outcome_matches(outcome, r)
    } else {
        match r.phase {
            CleanPhase::SwitchingToTrunk => s matches CleanStep::SwitchToTrunk { from_branch, to_branch }
                && from_branch@ == r.original_branch && to_branch@ == r.trunk_branch,
            CleanPhase::Restacking => s matches CleanStep::Restack { operation } && pending_clean_view(operation) == (
                r.trunk_branch,
                r.original_branch,
                r.switched_to_trunk_from,
                r.candidates[r.current as int],
                r.candidates.skip(r.current + 1int),
                r.untracked_branches,
                r.deleted_branches,
                r.restacked_branches,
            ),
            CleanPhase::Completing => s matches CleanStep::Complete { candidate } && candidate_view(candidate)
                == r.candidates[r.current as int],
            CleanPhase::CheckingOutTrunk => s matches CleanStep::CheckoutTrunk { trunk_branch } && trunk_branch@
                == r.trunk_branch,
            CleanPhase::Restoring => s matches CleanStep::RestoreOriginal { original_branch } && original_branch@
                == r.original_branch,
            CleanPhase::Finished => s matches CleanStep::Finish { outcome } && outcome_matches(outcome, r),
        }
    }
}

fn copy_opt(s: &Option<String>) -> (r: Option<String>)
    ensures
        opt_view(r) == opt_view(*s),
{
    match s {
        Some(t) => Some(t.clone()),
        None => None,
    }
}

fn copy_candidate(c: &PendingCleanCandidate) -> (r: PendingCleanCandidate)
    ensures
        candidate_view(r) == candidate_view(*c),
{
    PendingCleanCandidate { branch_name: c.branch_name.clone(), kind: c.kind }
}

fn copy_candidates_from(cs: &Vec<PendingCleanCandidate>, start: usize) -> (r: Vec<PendingCleanCandidate>)
    requires
        start <= cs.len(),
    ensures
        candidates_view(r@) == candidates_view(cs@).skip(start as int),
{
    let mut r: Vec<PendingCleanCandidate> = Vec::new();
    let mut i: usize = start;
    while i < cs.len()
        invariant
            start <= i <= cs.len(),
            candidates_view(r@) == candidates_view(cs@).subrange(start as int, i as int),
        decreases cs.len() - i,
    {
        let ghost before = r@;
        r.push(copy_candidate(&cs[i]));
        proof {
            assert(candidates_view(r@) =~= candidates_view(before).push(candidate_view(cs@[i as int])));
            assert(candidates_view(cs@).subrange(start as int, i as int + 1) =~= candidates_view(cs@).subrange(
                start as int,
                i as int,
            ).push(candidate_view(cs@[i as int])));
        }
        i = i + 1;
    }
    proof {
        assert(candidates_view(cs@).subrange(start as int, cs@.len() as int) =~= candidates_view(cs@).skip(
            start as int,
        ));
    }
    r
}

fn copy_previews(ps: &Vec<RestackPreview>) -> (r: Vec<RestackPreview>)
    ensures
        previews_view(r@) == previews_view(ps@),
{
    let mut r: Vec<RestackPreview> = Vec::new();
    let mut i: usize = 0;
    while i < ps.len()
        invariant
            i <= ps.len(),
            previews_view(r@) == previews_view(ps@).take(i as int),
        decreases ps.len() - i,
    {
        let ghost before = r@;
        r.push(ps[i].duplicate());
        proof {
            assert(previews_view(r@) =~= previews_view(before).push(preview_view(ps@[i as int])));
            assert(previews_view(ps@).take(i as int + 1) =~= previews_view(ps@).take(i as int).push(
                preview_view(ps@[i as int]),
            ));
        }
        i = i + 1;
    }
    proof {
        assert(previews_view(ps@).take(ps@.len() as int) =~= previews_view(ps@));
    }
    r
}

impl CleanRun {
    /// Starts a cleanup of the given candidates from the branch checked out.
    pub fn start(
        trunk_branch: &str,
        current_branch: &str,
        candidates: Vec<PendingCleanCandidate>,
        targets_current_branch: bool,
    ) -> (r: CleanRun)
        ensures
            r@ == start_spec(trunk_branch@, current_branch@, candidates_view(candidates@), targets_current_branch),
    {
        let phase = if candidates.len() == 0 {
            CleanPhase::Finished
        } else if targets_current_branch && !crate::text::str_equal(current_branch, trunk_branch) {
            CleanPhase::SwitchingToTrunk
        } else {
            CleanPhase::Restacking
        };
        let r = CleanRun {
            trunk_branch: to_owned_string(trunk_branch),
            original_branch: to_owned_string(current_branch),
            switched_to_trunk_from: None,
            candidates,
            current: 0,
            untracked_branches: Vec::new(),
            deleted_branches: Vec::new(),
            restacked_branches: Vec::new(),
            trunk_checkout_from: None,
            restored_original_branch: None,
            failure_output: None,
            paused: false,
            status: RunStatus::succeeded(),
            phase,
        };
        proof {
            assert(views(r.untracked_branches@) =~= Seq::<Seq<char>>::empty());
            assert(views(r.deleted_branches@) =~= Seq::<Seq<char>>::empty());
            assert(previews_view(r.restacked_branches@) =~= Seq::<(Seq<char>, Seq<char>, bool)>::empty());
        }
        r
    }

    /// Resumes a cleanup whose rebases paused; the run waits for the rest of those rebases.
    pub fn resume(op: PendingCleanOperation) -> (r: CleanRun)
        ensures
            r@ == resume_spec(op),
    {
        let ghost v = pending_clean_view(op);
        let PendingCleanOperation {
            trunk_branch,
            original_branch,
            switched_to_trunk_from,
            current_candidate,
            mut remaining_candidates,
            untracked_branches,
            deleted_branches,
            restacked_branches,
        } = op;
        let mut candidates: Vec<PendingCleanCandidate> = Vec::new();
        candidates.push(current_candidate);
        let ghost first = candidates@;
        let ghost rest = remaining_candidates@;
        candidates.append(&mut remaining_candidates);
        proof {
            assert(candidates_view(candidates@) =~= seq![v.3] + v.4);
        }
        CleanRun {
            trunk_branch,
            original_branch,
            switched_to_trunk_from,
            candidates,
            current: 0,
            untracked_branches,
            deleted_branches,
            restacked_branches,
            trunk_checkout_from: None,
            restored_original_branch: None,
            failure_output: None,
            paused: false,
            status: RunStatus::succeeded(),
            phase: CleanPhase::Restacking,
        }
    }

    fn outcome(&self) -> (o: CleanApplyOutcome)
        ensures
            outcome_matches(o, self@),
    {
        CleanApplyOutcome {
            status: self.status,
            switched_to_trunk_from: copy_opt(&self.switched_to_trunk_from),
            restored_original_branch: copy_opt(&self.restored_original_branch),
            untracked_branches: copy_strings(&self.untracked_branches),
            deleted_branches: copy_strings(&self.deleted_branches),
            restacked_branches: copy_previews(&self.restacked_branches),
            failure_output: copy_opt(&self.failure_output),
            paused: self.paused,
        }
    }

    /// The outside work the run waits for next, or its outcome once it is over.
    pub fn next_step(&self) -> (s: CleanStep)
        ensures
            step_matches(s, self@),
    {
        match self.phase {
            CleanPhase::SwitchingToTrunk => CleanStep::SwitchToTrunk {
                from_branch: self.original_branch.clone(),
                to_branch: self.trunk_branch.clone(),
            },
            CleanPhase::Restacking => {
                if self.current >= self.candidates.len() {
                    return CleanStep::Finish { outcome: self.outcome() };
                }
                let operation = PendingCleanOperation {
                    trunk_branch: self.trunk_branch.clone(),
                    original_branch: self.original_branch.clone(),
                    switched_to_trunk_from: copy_opt(&self.switched_to_trunk_from),
                    current_candidate: copy_candidate(&self.candidates[self.current]),
                    remaining_candidates: copy_candidates_from(&self.candidates, self.current + 1),
                    untracked_branches: copy_strings(&self.untracked_branches),
                    deleted_branches: copy_strings(&self.deleted_branches),
                    restacked_branches: copy_previews(&self.restacked_branches),
                };
                CleanStep::Restack { operation }
            },
            CleanPhase::Completing => {
                if self.current >= self.candidates.len() {
                    return CleanStep::Finish { outcome: self.outcome() };
                }
                CleanStep::Complete { candidate: copy_candidate(&self.candidates[self.current]) }
            },
            CleanPhase::CheckingOutTrunk => CleanStep::CheckoutTrunk { trunk_branch: self.trunk_branch.clone() },
            CleanPhase::Restoring => CleanStep::RestoreOriginal { original_branch: self.original_branch.clone() },
            CleanPhase::Finished => CleanStep::Finish { outcome: self.outcome() },
        }
    }

    fn finish(&mut self, status: RunStatus)
        ensures
            final(self)@ == finished_with(old(self)@, status),
    {
        self.status = status;
        self.phase = CleanPhase::Finished;
    }

    fn next_candidate(&mut self)
        requires
            old(self).current < old(self).candidates.len(),
        ensures
            final(self)@ == after_candidate(old(self)@),
    {
        self.current = self.current + 1;
        self.status = RunStatus::succeeded();
        self.phase = if self.current < self.candidates.len() {
            CleanPhase::Restacking
        } else {
            CleanPhase::CheckingOutTrunk
        };
    }

    /// Takes in what the outside work gave and moves the run on.
    pub fn advance(&mut self, event: CleanRunEvent)
        ensures
            final(self)@ == advance_spec(old(self)@, event@),
    {
        let ghost before = self@;
        let ghost ev = event@;
        match event {
            CleanRunEvent::Switched { status, switched_from } => {
                if self.phase == CleanPhase::SwitchingToTrunk {
                    if !status.success {
                        self.finish(status);
                    } else {
                        self.switched_to_trunk_from = switched_from;
                        self.phase = CleanPhase::Restacking;
                    }
                }
            },
            CleanRunEvent::Restacked { status, paused, mut restacked, failure_output } => {
                if self.phase == CleanPhase::Restacking {
                    let ghost a = self.restacked_branches@;
                    let ghost b = restacked@;
                    self.restacked_branches.append(&mut restacked);
                    proof {
                        assert(previews_view(a + b) =~= previews_view(a) + previews_view(b));
                    }
                    if paused {
                        self.finish(status);
                        self.paused = true;
                        self.failure_output = failure_output;
                    } else {
                        self.phase = CleanPhase::Completing;
                    }
                }
            },
            CleanRunEvent::Completed { status } => {
                if self.phase == CleanPhase::Completing && self.current < self.candidates.len() {
                    let name = self.candidates[self.current].branch_name.clone();
                    match self.candidates[self.current].kind {
                        PendingCleanCandidateKind::DeletedLocally => {
                            push_string(&mut self.untracked_branches, name);
                            self.next_candidate();
                        },
                        PendingCleanCandidateKind::IntegratedIntoParent => {
                            if status.success {
                                push_string(&mut self.deleted_branches, name);
                                self.next_candidate();
                            } else {
                                self.finish(status);
                            }
                        },
                    }
                }
            },
            CleanRunEvent::CheckedOut { status, switched_from } => {
                if self.phase == CleanPhase::CheckingOutTrunk {
                    let switched = switched_from.is_some();
                    self.trunk_checkout_from = switched_from;
                    if switched {
                        if !status.success {
                            self.finish(status);
                        } else {
                            self.status = status;
                            self.phase = CleanPhase::Restoring;
                        }
                    } else {
                        self.phase = CleanPhase::Restoring;
                    }
                }
            },
            CleanRunEvent::Restored { status, restored } => {
                if self.phase == CleanPhase::Restoring {
                    match restored {
                        Some(b) => {
                            if !status.success {
                                self.finish(status);
                            } else {
                                self.finish(status);
                                self.restored_original_branch = Some(b);
                            }
                        },
                        None => {
                            if crate::text::str_equal(self.original_branch.as_str(), self.trunk_branch.as_str())
                                && self.trunk_checkout_from.is_some() {
                                self.restored_original_branch = Some(self.original_branch.clone());
                            }
                            self.phase = CleanPhase::Finished;
                        },
                    }
                }
            },
        }
    }
}

/// The kind of removal a cleanup reason calls for.
pub open spec fn kind_of(reason: CleanReason) -> PendingCleanCandidateKind {
    match reason {
        CleanReason::DeletedLocally => PendingCleanCandidateKind::DeletedLocally,
        CleanReason::IntegratedIntoParent { .. } => PendingCleanCandidateKind::IntegratedIntoParent,
    }
}

/// The candidates of a cleanup plan as a run carries them, in plan order.
pub fn pending_candidates(plan: &CleanPlan) -> (r: Vec<PendingCleanCandidate>)
    ensures
        r@.len() == plan.candidates@.len(),
        forall|i: int|
            0 <= i < r@.len() ==> #[trigger] candidate_view(r@[i]) == (
                plan.candidates@[i].branch_name@,
                kind_of(plan.candidates@[i].reason),
            ),
{
    let mut r: Vec<PendingCleanCandidate> = Vec::new();
    let mut i: usize = 0;
    while i < plan.candidates.len()
        invariant
            i <= plan.candidates.len(),
            r@.len() == i,
            forall|j: int|
                0 <= j < i ==> #[trigger] candidate_view(r@[j]) == (
                    plan.candidates@[j].branch_name@,
                    kind_of(plan.candidates@[j].reason),
                ),
        decreases plan.candidates.len() - i,
    {
        let c = &plan.candidates[i];
        let kind = match &c.reason {
            CleanReason::DeletedLocally => PendingCleanCandidateKind::DeletedLocally,
            CleanReason::IntegratedIntoParent { .. } => PendingCleanCandidateKind::IntegratedIntoParent,
        };
        r.push(PendingCleanCandidate { branch_name: c.branch_name.clone(), kind });
        i = i + 1;
    }
    r
}

/// Whether `r` is what planning the rebases of a candidate's removal gives against the store:
/// a branch missing locally hands its children to its replacement parent, a merged one to its
/// parent.
pub open spec fn candidate_actions_match(
    r: Result<Vec<RestackAction>, DigError>,
    nodes: Seq<BranchNode>,
    facts: RepoFacts,
    trunk: Seq<char>,
    c: (Seq<char>, PendingCleanCandidateKind),
) -> bool {
    match node_named(nodes, c.0) {
        None => r matches Err(e) && (e.kind, e.message@) == branch_not_tracked_error(c.0),
        Some(n) => match c.1 {
            PendingCleanCandidateKind::DeletedLocally => match node_with_id(nodes, n.id) {
                None => r matches Err(e) && e.kind == ErrorKind::NotFound && e.message@ == branch_not_found_message(),
                Some(m) => match replacement_walk(nodes, facts, trunk, m.parent, nodes.len()) {
                    Err(pe) => r matches Err(e) && (e.kind, e.message@) == pe,
                    Ok((base, np)) => match deleted_list(
                        nodes,
                        facts.heads@,
                        facts.merge_bases@,
                        children_spec(nodes, m.id),
                        0,
                        m.branch_name@,
                        base,
                        np,
                        None,
                    ) {
                        Err(pe) => r matches Err(e) && (e.kind, e.message@) == pe,
                        Ok(actions) => match subtree_walk(nodes, m.id, Seq::<u128>::empty(), nodes.len()) {
                            Err(SubtreeFailure::Cycle(id)) => r matches Err(e) && e.kind == ErrorKind::InvalidData
                                && e.message@ == cycle_message(nodes, id),
                            Err(SubtreeFailure::Missing) => r matches Err(e) && e.kind == ErrorKind::NotFound
                                && e.message@ == branch_not_found_message(),
                            Ok(_) => outcome(r) == Ok::<Seq<crate::restack::ActionView>, PlanError>(actions),
                        },
                    },
                },
            },
            PendingCleanCandidateKind::IntegratedIntoParent => match parent_name_spec(nodes, n.parent, trunk) {
                None => r matches Err(e) && (e.kind, e.message@) == named_error(
                    ErrorKind::Other,
                    "tracked parent for "@,
                    c.0,
                    " is missing from dig"@,
                ),
                Some(p) => outcome(r) == detach_list(
                    nodes,
                    facts.heads@,
                    children_spec(nodes, n.id),
                    0,
                    n.branch_name@,
                    (p, None),
                    n.parent,
                ),
            },
        },
    }
}

/// Plans the rebases that removing a cleanup candidate causes, against the store as it is.
pub fn restack_actions_for_candidate(
    state: &DigState,
    trunk_branch: &str,
    facts: &RepoFacts,
    candidate: &PendingCleanCandidate,
) -> (r: Result<Vec<RestackAction>, DigError>)
    ensures
        candidate_actions_match(r, state.nodes@, *facts, trunk_branch@, candidate_view(*candidate)),
{
    let node = match state.find_branch_by_name(candidate.branch_name.as_str()) {
        Some(n) => n,
        None => {
            return Err(
                DigError::new(
                    ErrorKind::NotFound,
                    crate::error::message_with_name("tracked branch ", candidate.branch_name.as_str(), " was not found"),
                ),
            );
        },
    };
    match candidate.kind {
        PendingCleanCandidateKind::DeletedLocally => {
            let step = plan_deleted_local_step_for_branch(state, trunk_branch, candidate.branch_name.as_str(), facts)?;
            restack_actions_for_step(state, &step, facts)
        },
        PendingCleanCandidateKind::IntegratedIntoParent => {
            let parent = match BranchGraph::new(state).parent_branch_name(node, trunk_branch) {
                Some(p) => p,
                None => {
                    return Err(
                        crate::branch::named_failure(
                            ErrorKind::Other,
                            "tracked parent for ",
                            candidate.branch_name.as_str(),
                            " is missing from dig",
                        ),
                    );
                },
            };
            let base = RestackBaseTarget::local(parent.as_str());
            plan_after_branch_detach(state, facts, node.id, node.branch_name.as_str(), &base, &node.parent)
        },
    }
}

/// The rank of a phase: how many pieces of outside work a candidate still needs from it.
pub open spec fn phase_rank(p: CleanPhase) -> int {
    match p {
        CleanPhase::SwitchingToTrunk => 5,
        CleanPhase::Restacking => 4,
        CleanPhase::Completing => 3,
        CleanPhase::CheckingOutTrunk => 2,
        CleanPhase::Restoring => 1,
        CleanPhase::Finished => 0,
    }
}

/// A bound on the outside work a run still asks for.
pub open spec fn run_measure(r: CleanRunView) -> int {
    3 * (r.candidates.len() - r.current) + phase_rank(r.phase)
}

/// Whether the event is the one a run in the given phase waits for.
pub open spec fn event_fits(p: CleanPhase, e: CleanRunEventView) -> bool {
    match (p, e) {
        (CleanPhase::SwitchingToTrunk, CleanRunEventView::Switched { .. }) => true,
        (CleanPhase::Restacking, CleanRunEventView::Restacked { .. }) => true,
        (CleanPhase::Completing, CleanRunEventView::Completed { .. }) => true,
        (CleanPhase::CheckingOutTrunk, CleanRunEventView::CheckedOut { .. }) => true,
        (CleanPhase::Restoring, CleanRunEventView::Restored { .. }) => true,
        _ => false,
    }
}

/// Whether a run is consistent: it stands at a candidate it has while switching to trunk for
/// it, rebasing or removing it.
pub open spec fn run_wf(r: CleanRunView) -> bool {
    &&& r.current <= r.candidates.len()
    &&& (r.phase == CleanPhase::SwitchingToTrunk || r.phase == CleanPhase::Restacking || r.phase
        == CleanPhase::Completing) ==> r.current < r.candidates.len()
}

/// A cleanup never takes back what it reported: the branches no longer tracked, the branches
/// deleted and the rebases done only grow, whatever the outside work gave.
pub proof fn lemma_reports_only_grow(r: CleanRunView, e: CleanRunEventView)
    ensures
        r.untracked_branches.is_prefix_of(advance_spec(r, e).untracked_branches),
        r.deleted_branches.is_prefix_of(advance_spec(r, e).deleted_branches),
        r.restacked_branches.is_prefix_of(advance_spec(r, e).restacked_branches),
{
    let n = advance_spec(r, e);
    assert(r.untracked_branches.is_prefix_of(n.untracked_branches));
    assert(r.deleted_branches.is_prefix_of(n.deleted_branches));
    assert(r.restacked_branches.is_prefix_of(n.restacked_branches));
}

/// Every cleanup ends: each awaited event moves a consistent run that is not over to a
/// consistent run that asks for less outside work, and a finished run stays as it is.
pub proof fn lemma_run_progresses(r: CleanRunView, e: CleanRunEventView)
    requires
        run_wf(r),
    ensures
        run_wf(advance_spec(r, e)),
        r.phase == CleanPhase::Finished ==> advance_spec(r, e) == r,
        r.phase != CleanPhase::Finished && event_fits(r.phase, e) ==> run_measure(advance_spec(r, e)) < run_measure(
            r,
        ),
        run_measure(advance_spec(r, e)) >= 0,
{
}

/// A fresh run is consistent and has reported nothing.
pub proof fn lemma_start_is_consistent(
    trunk: Seq<char>,
    current_branch: Seq<char>,
    candidates: Seq<(Seq<char>, PendingCleanCandidateKind)>,
    targets_current_branch: bool,
)
    ensures
        run_wf(start_spec(trunk, current_branch, candidates, targets_current_branch)),
        start_spec(trunk, current_branch, candidates, targets_current_branch).untracked_branches.len() == 0,
        start_spec(trunk, current_branch, candidates, targets_current_branch).deleted_branches.len() == 0,
{
}

/// A resumed run is consistent and keeps what the paused cleanup had reported.
pub proof fn lemma_resume_is_consistent(op: PendingCleanOperation)
    ensures
        run_wf(resume_spec(op)),
        resume_spec(op).untracked_branches == views(op.untracked_branches@),
        resume_spec(op).deleted_branches == views(op.deleted_branches@),
        resume_spec(op).restacked_branches == previews_view(op.restacked_branches@),
{
}

/// The names of the candidates of the given kind, in order.
pub open spec fn names_of_kind(
    cs: Seq<(Seq<char>, PendingCleanCandidateKind)>,
    kind: PendingCleanCandidateKind,
) -> Seq<Seq<char>>
    decreases cs.len(),
{
    if cs.len() == 0 {
        Seq::empty()
    } else {
        let prev = names_of_kind(cs.drop_last(), kind);
        if cs.last().1 == kind {
            prev.push(cs.last().0)
        } else {
            prev
        }
    }
}

/// Whether a run has reported exactly the candidates it got through, after what it had reported
/// before (`untracked_before`, `deleted_before`): the missing ones as no longer tracked and the
/// merged ones as deleted, in order.
pub open spec fn reports_follow_candidates(
    r: CleanRunView,
    untracked_before: Seq<Seq<char>>,
    deleted_before: Seq<Seq<char>>,
) -> bool {
    &&& r.untracked_branches == untracked_before + names_of_kind(
        r.candidates.take(r.current as int),
        PendingCleanCandidateKind::DeletedLocally,
    )
    &&& r.deleted_branches == deleted_before + names_of_kind(
        r.candidates.take(r.current as int),
        PendingCleanCandidateKind::IntegratedIntoParent,
    )
}

/// Whatever the outside work gives, a consistent run keeps reporting exactly the candidates it
/// got through.
pub proof fn lemma_reports_follow_candidates(
    r: CleanRunView,
    e: CleanRunEventView,
    untracked_before: Seq<Seq<char>>,
    deleted_before: Seq<Seq<char>>,
)
    requires
        run_wf(r),
        reports_follow_candidates(r, untracked_before, deleted_before),
    ensures
        reports_follow_candidates(advance_spec(r, e), untracked_before, deleted_before),
{
    let n = advance_spec(r, e);
    if n.current == r.current + 1 {
        let t = r.candidates.take(r.current as int);
        let t1 = r.candidates.take(r.current + 1int);
        assert(t1.drop_last() =~= t);
        assert(t1.last() == r.candidates[r.current as int]);
        let c = r.candidates[r.current as int];
        assert(names_of_kind(t1, PendingCleanCandidateKind::DeletedLocally) == if c.1
            == PendingCleanCandidateKind::DeletedLocally {
            names_of_kind(t, PendingCleanCandidateKind::DeletedLocally).push(c.0)
        } else {
            names_of_kind(t, PendingCleanCandidateKind::DeletedLocally)
        });
        assert(names_of_kind(t1, PendingCleanCandidateKind::IntegratedIntoParent) == if c.1
            == PendingCleanCandidateKind::IntegratedIntoParent {
            names_of_kind(t, PendingCleanCandidateKind::IntegratedIntoParent).push(c.0)
        } else {
            names_of_kind(t, PendingCleanCandidateKind::IntegratedIntoParent)
        });
        assert(untracked_before + names_of_kind(t, PendingCleanCandidateKind::DeletedLocally).push(c.0)
            =~= (untracked_before + names_of_kind(t, PendingCleanCandidateKind::DeletedLocally)).push(c.0));
        assert(deleted_before + names_of_kind(t, PendingCleanCandidateKind::IntegratedIntoParent).push(c.0)
            =~= (deleted_before + names_of_kind(t, PendingCleanCandidateKind::IntegratedIntoParent)).push(c.0));
    }
}

/// A fresh run has reported nothing, and a resumed run has reported what the paused cleanup had.
pub proof fn lemma_runs_start_with_their_reports(
    trunk: Seq<char>,
    current_branch: Seq<char>,
    candidates: Seq<(Seq<char>, PendingCleanCandidateKind)>,
    targets_current_branch: bool,
    op: PendingCleanOperation,
)
    ensures
        reports_follow_candidates(
            start_spec(trunk, current_branch, candidates, targets_current_branch),
            Seq::empty(),
            Seq::empty(),
        ),
        reports_follow_candidates(resume_spec(op), views(op.untracked_branches@), views(op.deleted_branches@)),
{
    let s = start_spec(trunk, current_branch, candidates, targets_current_branch);
    assert(s.candidates.take(0) =~= Seq::<(Seq<char>, PendingCleanCandidateKind)>::empty());
    assert(Seq::<Seq<char>>::empty() + Seq::<Seq<char>>::empty() =~= Seq::<Seq<char>>::empty());
    let r = resume_spec(op);
    assert(r.candidates.take(0) =~= Seq::<(Seq<char>, PendingCleanCandidateKind)>::empty());
    assert(views(op.untracked_branches@) + Seq::<Seq<char>>::empty() =~= views(op.untracked_branches@));
    assert(views(op.deleted_branches@) + Seq::<Seq<char>>::empty() =~= views(op.deleted_branches@));
}

/// A cleanup that got through all its candidates has reported each missing branch as no longer
/// tracked and each merged branch as deleted, in plan order, after what it had reported before.
pub proof fn lemma_finished_cleanup_reports_every_candidate(
    r: CleanRunView,
    untracked_before: Seq<Seq<char>>,
    deleted_before: Seq<Seq<char>>,
)
    requires
        reports_follow_candidates(r, untracked_before, deleted_before),
        r.current == r.candidates.len(),
    ensures
        r.untracked_branches == untracked_before + names_of_kind(
            r.candidates,
            PendingCleanCandidateKind::DeletedLocally,
        ),
        r.deleted_branches == deleted_before + names_of_kind(
            r.candidates,
            PendingCleanCandidateKind::IntegratedIntoParent,
        ),
{
    assert(r.candidates.take(r.current as int) =~= r.candidates);
}

} // verus!
