use vstd::prelude::*;

use crate::clean_animation::{clean_event_effect, clean_pending_node, clean_primed, section_texts, CleanAnimation};
use crate::layout::tree_text;
use crate::clean_types::{CleanCandidate, CleanEvent};
use crate::sync_render::{
    active_frame, pending_forest, preview_names, prune_forest, render_active_frame, sync_event_effect, sync_labels,
    tick_forest_upto,
    SyncAnimation, SyncEvent, SyncStage, SyncStatus,
};
use crate::sync_summary::apply_cleanup_status;
use crate::text::{join_spec, str_equal, views};
use crate::tree_view::TreeView;

verus! {

/// The display that a running sync shows under its status bar.
pub enum ActiveSyncStage {
    Local(SyncAnimation),
    Cleanup(CleanAnimation),
}

/// What the terminal has to do after a step of the sync display.
#[derive(Debug, Clone, Copy, PartialEq, Eq, Structural)]
pub enum SessionAction {
    Nothing,
    Render,
    StartAndRender,
}

/// What the terminal shows when the sync display closes.
#[derive(Debug, PartialEq, Eq)]
pub enum SessionFinish {
    Nothing,
    Clear,
    Show(String),
}

/// The state of the display of a running sync: its stage, its status bar and the frame of the
/// status throbber, the tree that a local sync starts from, and whether the terminal display
/// has been started.
pub struct SyncSession {
    pub stage: Option<ActiveSyncStage>,
    pub status: Option<SyncStatus>,
    pub status_frame_index: usize,
    pub initial_local_view: Option<TreeView>,
    pub terminal_started: bool,
}

/// Whether two statuses are the same: the same kind with the same texts and numbers.
pub open spec fn status_equal(a: SyncStatus, b: SyncStatus) -> bool {
    match (a, b) {
        (SyncStatus::FetchingRemotes, SyncStatus::FetchingRemotes) => true,
        (SyncStatus::RepairingClosedPullRequests, SyncStatus::RepairingClosedPullRequests) => true,
        (SyncStatus::RemovingMergedLocalBranches, SyncStatus::RemovingMergedLocalBranches) => true,
        (
            SyncStatus::ReconcilingDeletedLocalBranch { step_branch_name: x },
            SyncStatus::ReconcilingDeletedLocalBranch { step_branch_name: y },
        ) => x@ == y@,
        (SyncStatus::PreparingRestack { step_branch_name: x }, SyncStatus::PreparingRestack {
            step_branch_name: y,
        }) => x@ == y@,
        (SyncStatus::RestackingBranch { branch_name: x, onto_branch: p }, SyncStatus::RestackingBranch {
            branch_name: y,
            onto_branch: q,
        }) => x@ == y@ && p@ == q@,
        (SyncStatus::InspectingPullRequestUpdates, SyncStatus::InspectingPullRequestUpdates) => true,
        (
            SyncStatus::UpdatingPullRequestBase { branch_name: x, pull_request_number: m },
            SyncStatus::UpdatingPullRequestBase { branch_name: y, pull_request_number: n },
        ) => x@ == y@ && m == n,
        (
            SyncStatus::PushingRemoteBranch { branch_name: x, remote_name: r, kind: k },
            SyncStatus::PushingRemoteBranch { branch_name: y, remote_name: s, kind: l },
        ) => x@ == y@ && r@ == s@ && k == l,
        (SyncStatus::DeletingBranch { branch_name: x }, SyncStatus::DeletingBranch { branch_name: y }) => x@ == y@,
        (SyncStatus::ArchivingBranch { branch_name: x }, SyncStatus::ArchivingBranch { branch_name: y }) => x@ == y@,
        _ => false,
    }
}

fn statuses_equal(a: &SyncStatus, b: &SyncStatus) -> (r: bool)
    ensures
        r == status_equal(*a, *b),
{
    match (a, b) {
        (SyncStatus::FetchingRemotes, SyncStatus::FetchingRemotes) => true,
        (SyncStatus::RepairingClosedPullRequests, SyncStatus::RepairingClosedPullRequests) => true,
        (SyncStatus::RemovingMergedLocalBranches, SyncStatus::RemovingMergedLocalBranches) => true,
        (
            SyncStatus::ReconcilingDeletedLocalBranch { step_branch_name: x },
            SyncStatus::ReconcilingDeletedLocalBranch { step_branch_name: y },
        ) => str_equal(x.as_str(), y.as_str()),
        (SyncStatus::PreparingRestack { step_branch_name: x }, SyncStatus::PreparingRestack {
            step_branch_name: y,
        }) => str_equal(x.as_str(), y.as_str()),
        (SyncStatus::RestackingBranch { branch_name: x, onto_branch: p }, SyncStatus::RestackingBranch {
            branch_name: y,
            onto_branch: q,
        }) => str_equal(x.as_str(), y.as_str()) && str_equal(p.as_str(), q.as_str()),
        (SyncStatus::InspectingPullRequestUpdates, SyncStatus::InspectingPullRequestUpdates) => true,
        (
            SyncStatus::UpdatingPullRequestBase { branch_name: x, pull_request_number: m },
            SyncStatus::UpdatingPullRequestBase { branch_name: y, pull_request_number: n },
        ) => str_equal(x.as_str(), y.as_str()) && *m == *n,
        (
            SyncStatus::PushingRemoteBranch { branch_name: x, remote_name: r, kind: k },
            SyncStatus::PushingRemoteBranch { branch_name: y, remote_name: s, kind: l },
        ) => str_equal(x.as_str(), y.as_str()) && str_equal(r.as_str(), s.as_str()) && *k == *l,
        (SyncStatus::DeletingBranch { branch_name: x }, SyncStatus::DeletingBranch { branch_name: y }) => str_equal(
            x.as_str(),
            y.as_str(),
        ),
        (SyncStatus::ArchivingBranch { branch_name: x }, SyncStatus::ArchivingBranch { branch_name: y }) => str_equal(
            x.as_str(),
            y.as_str(),
        ),
        _ => false,
    }
}

/// Whether a stage is well formed.
pub open spec fn stage_wf(stage: Option<ActiveSyncStage>) -> bool {
    match stage {
        Some(ActiveSyncStage::Cleanup(a)) => a.wf(),
        _ => true,
    }
}

/// Whether the status bar already shows `status`.
pub open spec fn shows_status(current: Option<SyncStatus>, status: SyncStatus) -> bool {
    current is Some && status_equal(current->Some_0, status)
}

/// Whether the display is local and its branches are `ns`.
pub open spec fn local_stage_is(stage: Option<ActiveSyncStage>, label: Option<Seq<char>>, ns: Seq<crate::sync_render::SyncNodeView>) -> bool {
    match stage {
        Some(ActiveSyncStage::Local(a)) => a@ == (label, ns),
        _ => false,
    }
}

/// Whether the display is a cleanup's, with the sections `labels` and the branches `ns`.
pub open spec fn cleanup_stage_is(stage: Option<ActiveSyncStage>, labels: Seq<Seq<char>>, ns: Seq<crate::sync_render::SyncNodeView>) -> bool {
    match stage {
        Some(ActiveSyncStage::Cleanup(a)) => a.wf() && a@ == (labels, ns),
        _ => false,
    }
}

/// The root label of a tree view, by name.
pub open spec fn view_root_name(view: TreeView) -> Option<Seq<char>> {
    match view.root_label {
        Some(l) => Some(l.branch_name@),
        None => None,
    }
}

/// The action for a changed display: draw it if it changed.
pub open spec fn redraw_if(changed: bool) -> SessionAction {
    if changed {
        SessionAction::Render
    } else {
        SessionAction::Nothing
    }
}

/// The throbber frame after `f`, wrapping at the end of the range.
pub open spec fn next_frame(f: usize) -> usize {
    if f == usize::MAX {
        0
    } else {
        (f + 1) as usize
    }
}

/// The text of a stage's display: running (`!done`) or finished (`done`).
pub open spec fn stage_text(stage: ActiveSyncStage, done: bool) -> Seq<char> {
    match stage {
        ActiveSyncStage::Local(a) => if done {
            tree_text(a@.0, sync_labels(prune_forest(a@.1)))
        } else {
            tree_text(a@.0, sync_labels(a@.1))
        },
        ActiveSyncStage::Cleanup(a) => join_spec(section_texts(a@.0, a@.1, done), "\n\n"@),
    }
}

/// The frame that the running display draws: nothing before the terminal display started or
/// while there is neither a stage nor a status; else the status bar over the stage's display.
pub open spec fn session_frame(s: SyncSession) -> Option<Seq<char>> {
    if !s.terminal_started {
        None
    } else {
        let status = match s.status {
            Some(st) => Some((st, s.status_frame_index as nat)),
            None => None,
        };
        match s.stage {
            None => match s.status {
                None => None,
                Some(_) => Some(active_frame(status, None)),
            },
            Some(stage) => Some(active_frame(status, Some(stage_text(stage, false)))),
        }
    }
}

impl SyncSession {
    /// A display with nothing shown yet, which starts a local sync from `initial_local_view`.
    pub fn new(initial_local_view: Option<TreeView>) -> (s: SyncSession)
        ensures
            s.stage is None,
            s.status is None,
            s.status_frame_index == 0,
            s.initial_local_view == initial_local_view,
            !s.terminal_started,
    {
        SyncSession {
            stage: None,
            status: None,
            status_frame_index: 0,
            initial_local_view,
            terminal_started: false,
        }
    }

    /// Takes a step of the sync into the display, and says what the terminal has to do.
    pub fn apply(&mut self, event: &SyncEvent) -> (action: SessionAction)
        requires
            stage_wf(old(self).stage),
        ensures
            stage_wf(final(self).stage),
            match *event {
                SyncEvent::StatusChanged(status) => if shows_status(old(self).status, status) {
                    action == SessionAction::Nothing && *final(self) == *old(self)
                } else {
                    &&& final(self).status == Some(status)
                    &&& final(self).status_frame_index == 0
                    &&& final(self).stage == old(self).stage
                    &&& final(self).initial_local_view == old(self).initial_local_view
                    &&& final(self).terminal_started == (old(self).terminal_started || old(self).stage is None)
                    &&& action == if old(self).stage is Some || old(self).terminal_started {
                        SessionAction::Render
                    } else {
                        SessionAction::StartAndRender
                    }
                },
                SyncEvent::StageStarted(SyncStage::LocalSync { .. }) => match old(self).stage {
                    Some(ActiveSyncStage::Local(a)) => {
                        &&& local_stage_is(final(self).stage, a@.0, sync_event_effect(a@.1, *event).0)
                        &&& action == redraw_if(sync_event_effect(a@.1, *event).1)
                        &&& final(self).status == old(self).status
                        &&& final(self).status_frame_index == old(self).status_frame_index
                        &&& final(self).initial_local_view == old(self).initial_local_view
                        &&& final(self).terminal_started == old(self).terminal_started
                    },
                    _ => match old(self).initial_local_view {
                        None => action == SessionAction::Nothing && *final(self) == *old(self),
                        Some(view) => {
                            &&& local_stage_is(
                                final(self).stage,
                                view_root_name(view),
                                sync_event_effect(pending_forest(view.roots@), *event).0,
                            )
                            &&& action == SessionAction::StartAndRender
                            &&& final(self).initial_local_view is None
                            &&& final(self).status == old(self).status
                            &&& final(self).status_frame_index == old(self).status_frame_index
                            &&& final(self).terminal_started
                        },
                    },
                },
                SyncEvent::StageStarted(
                    SyncStage::CleanupResume {
                        plan,
                        active_branch_name,
                        untracked_branches,
                        deleted_branches,
                        restacked_branches,
                    },
                ) => {
                    &&& cleanup_stage_is(
                        final(self).stage,
                        plan.candidates@.map_values(|c: CleanCandidate| c.parent_branch_name@),
                        clean_primed(
                            plan.candidates@.map_values(|c: CleanCandidate| clean_pending_node(c.tree)),
                            preview_names(restacked_branches@),
                            views(deleted_branches@),
                            views(untracked_branches@),
                            active_branch_name@,
                        ),
                    )
                    &&& action == SessionAction::StartAndRender
                    &&& final(self).status == old(self).status
                    &&& final(self).status_frame_index == old(self).status_frame_index
                    &&& final(self).initial_local_view == old(self).initial_local_view
                    &&& final(self).terminal_started
                },
                SyncEvent::Cleanup(clean_event) => match old(self).stage {
                    Some(ActiveSyncStage::Cleanup(a)) => {
                        let status_changed = match crate::sync_render::clean_event_status(clean_event) {
                            None => false,
                            Some(next) => !(old(self).status is Some && crate::sync_summary::same_status(
                                old(self).status->Some_0,
                                next,
                            )),
                        };
                        &&& cleanup_stage_is(final(self).stage, a@.0, clean_event_effect(a@.1, clean_event).0)
                        &&& action == redraw_if(clean_event_effect(a@.1, clean_event).1 || status_changed)
                        &&& final(self).status == if status_changed {
                            crate::sync_render::clean_event_status(clean_event)
                        } else {
                            old(self).status
                        }
                        &&& final(self).status_frame_index == if status_changed {
                            0
                        } else {
                            old(self).status_frame_index
                        }
                        &&& final(self).initial_local_view == old(self).initial_local_view
                        &&& final(self).terminal_started == old(self).terminal_started
                    },
                    _ => action == SessionAction::Nothing && *final(self) == *old(self),
                },
                _ => match old(self).stage {
                    Some(ActiveSyncStage::Local(a)) => {
                        &&& local_stage_is(final(self).stage, a@.0, sync_event_effect(a@.1, *event).0)
                        &&& action == redraw_if(sync_event_effect(a@.1, *event).1)
                        &&& final(self).status == old(self).status
                        &&& final(self).status_frame_index == old(self).status_frame_index
                        &&& final(self).initial_local_view == old(self).initial_local_view
                        &&& final(self).terminal_started == old(self).terminal_started
                    },
                    _ => action == SessionAction::Nothing && *final(self) == *old(self),
                },
            },
    {
        match event {
            SyncEvent::StatusChanged(status) => {
                let same = match &self.status {
                    Some(current) => statuses_equal(current, status),
                    None => false,
                };
                if same {
                    return SessionAction::Nothing;
                }
                self.status = Some(copy_status(status));
                self.status_frame_index = 0;
                if self.stage.is_some() || self.terminal_started {
                    SessionAction::Render
                } else {
                    self.terminal_started = true;
                    SessionAction::StartAndRender
                }
            },
            SyncEvent::StageStarted(SyncStage::LocalSync { .. }) => {
                let mut stage: Option<ActiveSyncStage> = None;
                std::mem::swap(&mut stage, &mut self.stage);
                match stage {
                    Some(ActiveSyncStage::Local(mut a)) => {
                        let changed = a.apply_event(event);
                        self.stage = Some(ActiveSyncStage::Local(a));
                        if changed {
                            SessionAction::Render
                        } else {
                            SessionAction::Nothing
                        }
                    },
                    other => {
                        let mut view: Option<TreeView> = None;
                        std::mem::swap(&mut view, &mut self.initial_local_view);
                        match view {
                            None => {
                                self.stage = other;
                                SessionAction::Nothing
                            },
                            Some(v) => {
                                let mut a = SyncAnimation::new(&v);
                                a.apply_event(event);
                                self.stage = Some(ActiveSyncStage::Local(a));
                                self.terminal_started = true;
                                SessionAction::StartAndRender
                            },
                        }
                    },
                }
            },
            SyncEvent::StageStarted(
                SyncStage::CleanupResume {
                    plan,
                    active_branch_name,
                    untracked_branches,
                    deleted_branches,
                    restacked_branches,
                },
            ) => {
                let mut a = CleanAnimation::new(plan);
                a.prime_resume(restacked_branches, deleted_branches, untracked_branches, active_branch_name.as_str());
                self.stage = Some(ActiveSyncStage::Cleanup(a));
                self.terminal_started = true;
                SessionAction::StartAndRender
            },
            SyncEvent::Cleanup(clean_event) => {
                let mut stage: Option<ActiveSyncStage> = None;
                std::mem::swap(&mut stage, &mut self.stage);
                match stage {
                    Some(ActiveSyncStage::Cleanup(mut a)) => {
                        let status_changed = apply_cleanup_status(
                            &mut self.status,
                            &mut self.status_frame_index,
                            clean_event,
                        );
                        let changed = a.apply_event(clean_event);
                        self.stage = Some(ActiveSyncStage::Cleanup(a));
                        if changed || status_changed {
                            SessionAction::Render
                        } else {
                            SessionAction::Nothing
                        }
                    },
                    other => {
                        self.stage = other;
                        SessionAction::Nothing
                    },
                }
            },
            _ => {
                let mut stage: Option<ActiveSyncStage> = None;
                std::mem::swap(&mut stage, &mut self.stage);
                match stage {
                    Some(ActiveSyncStage::Local(mut a)) => {
                        let changed = a.apply_event(event);
                        self.stage = Some(ActiveSyncStage::Local(a));
                        if changed {
                            SessionAction::Render
                        } else {
                            SessionAction::Nothing
                        }
                    },
                    other => {
                        self.stage = other;
                        SessionAction::Nothing
                    },
                }
            },
        }
    }

    /// Moves the throbbers one frame further, and says whether the display changed: always
    /// while a status is shown.
    pub fn tick(&mut self) -> (changed: bool)
        requires
            stage_wf(old(self).stage),
        ensures
            stage_wf(final(self).stage),
            final(self).status == old(self).status,
            final(self).initial_local_view == old(self).initial_local_view,
            final(self).terminal_started == old(self).terminal_started,
            final(self).status_frame_index == if old(self).status is Some {
                next_frame(old(self).status_frame_index)
            } else {
                old(self).status_frame_index
            },
            match old(self).stage {
                None => final(self).stage is None && changed == old(self).status is Some,
                Some(ActiveSyncStage::Local(a)) => {
                    let t = tick_forest_upto(a@.1, a@.1.len() as int);
                    local_stage_is(final(self).stage, a@.0, t.0) && changed == (old(self).status is Some || t.1)
                },
                Some(ActiveSyncStage::Cleanup(a)) => {
                    let t = tick_forest_upto(a@.1, a@.1.len() as int);
                    cleanup_stage_is(final(self).stage, a@.0, t.0) && changed == (old(self).status is Some || t.1)
                },
            },
    {
        let mut changed = false;
        if self.status.is_some() {
            self.status_frame_index = if self.status_frame_index == usize::MAX {
                0
            } else {
                self.status_frame_index + 1
            };
            changed = true;
        }
        let mut stage: Option<ActiveSyncStage> = None;
        std::mem::swap(&mut stage, &mut self.stage);
        match stage {
            Some(ActiveSyncStage::Local(mut a)) => {
                let moved = a.tick();
                self.stage = Some(ActiveSyncStage::Local(a));
                changed || moved
            },
            Some(ActiveSyncStage::Cleanup(mut a)) => {
                let moved = a.tick();
                self.stage = Some(ActiveSyncStage::Cleanup(a));
                changed || moved
            },
            None => changed,
        }
    }

    /// The frame to draw now, if any.
    pub fn frame(&self) -> (r: Option<String>)
        requires
            stage_wf(self.stage),
        ensures
            match r {
                None => session_frame(*self) is None,
                Some(t) => session_frame(*self) == Some(t@),
            },
    {
        if !self.terminal_started {
            return None;
        }
        let status = match &self.status {
            Some(st) => Some((st, self.status_frame_index)),
            None => None,
        };
        match &self.stage {
            None => match &self.status {
                None => None,
                Some(_) => Some(render_active_frame(status, None)),
            },
            Some(stage) => {
                let body = render_stage(stage, false);
                Some(render_active_frame(status, Some(body.as_str())))
            },
        }
    }

    /// Closes the display: after a success the stage's finished display stays, after a failure
    /// its running one; with no stage the status bar is cleared.
    pub fn finish(&mut self, success: bool) -> (r: SessionFinish)
        requires
            stage_wf(old(self).stage),
        ensures
            stage_wf(final(self).stage),
            !old(self).terminal_started ==> r == SessionFinish::Nothing && *final(self) == *old(self),
            old(self).terminal_started ==> {
                &&& !final(self).terminal_started
                &&& final(self).stage is None
                &&& final(self).status == old(self).status
                &&& final(self).status_frame_index == old(self).status_frame_index
                &&& final(self).initial_local_view == old(self).initial_local_view
                &&& match old(self).stage {
                    None => r == SessionFinish::Clear,
                    Some(stage) => r is Show && r->Show_0@ == stage_text(stage, success),
                }
            },
    {
        if !self.terminal_started {
            return SessionFinish::Nothing;
        }
        self.terminal_started = false;
        let mut stage: Option<ActiveSyncStage> = None;
        std::mem::swap(&mut stage, &mut self.stage);
        match stage {
            None => SessionFinish::Clear,
            Some(st) => SessionFinish::Show(render_stage(&st, success)),
        }
    }
}

fn render_stage(stage: &ActiveSyncStage, done: bool) -> (r: String)
    requires
        stage_wf(Some(*stage)),
    ensures
        r@ == stage_text(*stage, done),
{
    match stage {
        ActiveSyncStage::Local(a) => if done {
            a.render_final()
        } else {
            a.render_active()
        },
        ActiveSyncStage::Cleanup(a) => if done {
            a.render_final()
        } else {
            a.render_active()
        },
    }
}

fn copy_status(s: &SyncStatus) -> (r: SyncStatus)
    ensures
        r == *s,
{
    match s {
        SyncStatus::FetchingRemotes => SyncStatus::FetchingRemotes,
        SyncStatus::RepairingClosedPullRequests => SyncStatus::RepairingClosedPullRequests,
        SyncStatus::RemovingMergedLocalBranches => SyncStatus::RemovingMergedLocalBranches,
        SyncStatus::ReconcilingDeletedLocalBranch { step_branch_name } => SyncStatus::ReconcilingDeletedLocalBranch {
            step_branch_name: step_branch_name.clone(),
        },
        SyncStatus::PreparingRestack { step_branch_name } => SyncStatus::PreparingRestack {
            step_branch_name: step_branch_name.clone(),
        },
        SyncStatus::RestackingBranch { branch_name, onto_branch } => SyncStatus::RestackingBranch {
            branch_name: branch_name.clone(),
            onto_branch: onto_branch.clone(),
        },
        SyncStatus::InspectingPullRequestUpdates => SyncStatus::InspectingPullRequestUpdates,
        SyncStatus::UpdatingPullRequestBase { branch_name, pull_request_number } => SyncStatus::UpdatingPullRequestBase {
            branch_name: branch_name.clone(),
            pull_request_number: *pull_request_number,
        },
        SyncStatus::PushingRemoteBranch { branch_name, remote_name, kind } => SyncStatus::PushingRemoteBranch {
            branch_name: branch_name.clone(),
            remote_name: remote_name.clone(),
            kind: *kind,
        },
        SyncStatus::DeletingBranch { branch_name } => SyncStatus::DeletingBranch { branch_name: branch_name.clone() },
        SyncStatus::ArchivingBranch { branch_name } => SyncStatus::ArchivingBranch { branch_name: branch_name.clone() },
    }
}

} // verus!
