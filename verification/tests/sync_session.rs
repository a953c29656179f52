use dig_stack::clean_types::{CleanCandidate, CleanEvent, CleanPlan, CleanReason, CleanTreeNode};
use dig_stack::pending::PendingSyncPhase;
use dig_stack::restack::RestackPreview;
use dig_stack::sync_render::{SyncEvent, SyncStage, SyncStatus};
use dig_stack::sync_session::{SessionAction, SessionFinish, SyncSession};
use dig_stack::tree_view::{TreeLabel, TreeNode, TreeView};

fn view() -> TreeView {
    TreeView {
        root_label: Some(TreeLabel { branch_name: "main".into(), is_current: false, pull_request_number: None }),
        roots: vec![TreeNode {
            branch_name: "feat/auth".into(),
            is_current: false,
            pull_request_number: None,
            children: vec![],
        }],
        current_branch_name: Some("main".into()),
        is_current_visible: true,
        current_branch_suffix: None,
    }
}

fn local_start() -> SyncEvent {
    SyncEvent::StageStarted(SyncStage::LocalSync {
        phase: PendingSyncPhase::RestackOutdatedLocalStacks,
        step_branch_name: "feat/auth".into(),
        active_branch_name: "feat/auth".into(),
        deleted_branches: Vec::new(),
        restacked_branches: Vec::new(),
    })
}

#[test]
fn status_change_starts_terminal_once_and_repeats_are_ignored() {
    let mut session = SyncSession::new(None);
    assert_eq!(session.frame(), None);
    assert_eq!(session.apply(&SyncEvent::StatusChanged(SyncStatus::FetchingRemotes)), SessionAction::StartAndRender);
    assert!(session.terminal_started);
    assert_eq!(session.apply(&SyncEvent::StatusChanged(SyncStatus::FetchingRemotes)), SessionAction::Nothing);
    assert_eq!(
        session.apply(&SyncEvent::StatusChanged(SyncStatus::RemovingMergedLocalBranches)),
        SessionAction::Render
    );
    assert!(session.frame().is_some());
    assert!(session.tick());
    assert_eq!(session.status_frame_index, 1);
    assert_eq!(session.finish(true), SessionFinish::Clear);
    assert_eq!(session.finish(true), SessionFinish::Nothing);
}

#[test]
fn local_stage_starts_from_initial_view_and_finishes_with_final_tree() {
    let mut session = SyncSession::new(Some(view()));
    assert_eq!(session.apply(&SyncEvent::BranchArchived { branch_name: "feat/auth".into() }), SessionAction::Nothing);
    assert_eq!(session.apply(&local_start()), SessionAction::StartAndRender);
    assert!(session.initial_local_view.is_none());
    assert_eq!(
        session.frame(),
        Some("main\n└── \u{1b}[38;5;208m|\u{1b}[0m \u{1b}[38;5;208mfeat/auth\u{1b}[0m".to_string())
    );
    assert_eq!(
        session.apply(&SyncEvent::RestackCompleted { branch_name: "feat/auth".into(), onto_branch: "main".into() }),
        SessionAction::Render
    );
    assert_eq!(
        session.apply(&SyncEvent::RestackCompleted { branch_name: "feat/none".into(), onto_branch: "main".into() }),
        SessionAction::Nothing
    );
    assert_eq!(
        session.finish(true),
        SessionFinish::Show("main\n└── \u{1b}[32m✓\u{1b}[0m \u{1b}[32mfeat/auth\u{1b}[0m".to_string())
    );
}

#[test]
fn cleanup_stage_updates_status_and_tree() {
    let mut session = SyncSession::new(None);
    let plan = CleanPlan {
        trunk_branch: "main".into(),
        current_branch: "main".into(),
        requested_branch_name: None,
        candidates: vec![CleanCandidate {
            node_id: 3,
            branch_name: "feat/auth".into(),
            parent_branch_name: "main".into(),
            reason: CleanReason::DeletedLocally,
            tree: CleanTreeNode { branch_name: "feat/auth".into(), children: vec![] },
            restack_plan: vec![],
            depth: 0,
        }],
        blocked: vec![],
    };
    assert_eq!(session.apply(&SyncEvent::Cleanup(CleanEvent::ArchiveStarted { branch_name: "feat/auth".into() })), SessionAction::Nothing);
    let action = session.apply(&SyncEvent::StageStarted(SyncStage::CleanupResume {
        plan,
        active_branch_name: "feat/other".into(),
        untracked_branches: Vec::new(),
        deleted_branches: Vec::new(),
        restacked_branches: vec![RestackPreview {
            branch_name: "feat/none".into(),
            onto_branch: "main".into(),
            parent_changed: true,
        }],
    }));
    assert_eq!(action, SessionAction::StartAndRender);
    assert_eq!(
        session.apply(&SyncEvent::Cleanup(CleanEvent::ArchiveCompleted { branch_name: "feat/auth".into() })),
        SessionAction::Render
    );
    assert_eq!(
        session.apply(&SyncEvent::Cleanup(CleanEvent::ArchiveStarted { branch_name: "feat/auth".into() })),
        SessionAction::Render
    );
    assert!(session.status.is_some());
    match session.finish(false) {
        SessionFinish::Show(text) => assert!(text.starts_with("main\n└── \u{1b}[38;5;208m|")),
        other => panic!("unexpected {:?}", other),
    }
}
