use dig_stack::clean_types::CleanEvent;
use dig_stack::pending::PendingSyncPhase;
use dig_stack::restack::RestackPreview;
use dig_stack::sync_render::{
    render_active_frame, render_completed_tree, render_status_header, status_from_clean_event, SyncAnimation,
    SyncEvent, SyncStage, SyncStatus,
};
use dig_stack::tree_view::{TreeLabel, TreeNode, TreeView};

fn sample_view() -> TreeView {
    TreeView {
        root_label: Some(TreeLabel {
            branch_name: "main".into(),
            is_current: false,
            pull_request_number: None,
        }),
        roots: vec![TreeNode {
            branch_name: "feat/auth".into(),
            is_current: false,
            pull_request_number: Some(42),
            children: vec![
                TreeNode {
                    branch_name: "feat/auth-api".into(),
                    is_current: false,
                    pull_request_number: None,
                    children: vec![TreeNode {
                        branch_name: "feat/auth-api-tests".into(),
                        is_current: false,
                        pull_request_number: None,
                        children: vec![],
                    }],
                },
                TreeNode {
                    branch_name: "feat/auth-ui".into(),
                    is_current: false,
                    pull_request_number: None,
                    children: vec![],
                },
            ],
        }],
        current_branch_name: Some("main".into()),
        is_current_visible: true,
        current_branch_suffix: None,
    }
}

#[test]
fn renders_pending_tree_without_status_markers() {
    let animation = SyncAnimation::new(&sample_view());

    assert_eq!(
        animation.render_active(),
        "main\n└── feat/auth (#42)\n    ├── feat/auth-api\n    │   └── feat/auth-api-tests\n    └── feat/auth-ui"
    );
}

#[test]
fn renders_completed_tree_with_all_green_checkmarks() {
    assert_eq!(
        render_completed_tree(&sample_view()),
        "\u{1b}[32m✓\u{1b}[0m \u{1b}[32mmain\u{1b}[0m\n└── \u{1b}[32m✓\u{1b}[0m \u{1b}[32mfeat/auth (#42)\u{1b}[0m\n    ├── \u{1b}[32m✓\u{1b}[0m \u{1b}[32mfeat/auth-api\u{1b}[0m\n    │   └── \u{1b}[32m✓\u{1b}[0m \u{1b}[32mfeat/auth-api-tests\u{1b}[0m\n    └── \u{1b}[32m✓\u{1b}[0m \u{1b}[32mfeat/auth-ui\u{1b}[0m"
    );
}

#[test]
fn highlights_active_branch_in_orange() {
    let mut animation = SyncAnimation::new(&sample_view());

    animation.apply_event(&SyncEvent::StageStarted(SyncStage::LocalSync {
        phase: PendingSyncPhase::RestackOutdatedLocalStacks,
        step_branch_name: "feat/auth".into(),
        active_branch_name: "feat/auth-api".into(),
        deleted_branches: Vec::new(),
        restacked_branches: Vec::new(),
    }));

    assert_eq!(
        animation.render_active(),
        "main\n└── feat/auth (#42)\n    ├── \u{1b}[38;5;208m|\u{1b}[0m \u{1b}[38;5;208mfeat/auth-api\u{1b}[0m\n    │   └── feat/auth-api-tests\n    └── feat/auth-ui"
    );
}

#[test]
fn renders_header_only_status_bar() {
    assert_eq!(
        render_active_frame(Some((&SyncStatus::FetchingRemotes, 0)), None),
        "\u{1b}[38;5;208mFetching remotes\u{1b}[0m \u{1b}[38;5;208m|\u{1b}[0m"
    );
}

#[test]
fn renders_status_bar_above_existing_tree_body() {
    let animation = SyncAnimation::new(&sample_view());

    assert_eq!(
        render_active_frame(
            Some((
                &SyncStatus::PreparingRestack {
                    step_branch_name: "feat/auth".into(),
                },
                1
            )),
            Some(&animation.render_active()),
        ),
        "\u{1b}[38;5;208mPreparing restack for feat/auth\u{1b}[0m \u{1b}[38;5;208m/\u{1b}[0m\n\nmain\n└── feat/auth (#42)\n    ├── feat/auth-api\n    │   └── feat/auth-api-tests\n    └── feat/auth-ui"
    );
}

#[test]
fn keeps_completed_branches_green_and_prunes_archived_nodes_from_final_view() {
    let mut animation = SyncAnimation::new(&sample_view());

    animation.apply_event(&SyncEvent::StageStarted(SyncStage::LocalSync {
        phase: PendingSyncPhase::ReconcileDeletedLocalBranches,
        step_branch_name: "feat/auth-api".into(),
        active_branch_name: "feat/auth-api-tests".into(),
        deleted_branches: Vec::new(),
        restacked_branches: vec![RestackPreview {
            branch_name: "feat/auth-ui".into(),
            onto_branch: "feat/auth".into(),
            parent_changed: false,
        }],
    }));
    animation.apply_event(&SyncEvent::BranchArchived {
        branch_name: "feat/auth-api".into(),
    });
    animation.apply_event(&SyncEvent::RestackCompleted {
        branch_name: "feat/auth-api-tests".into(),
        onto_branch: "feat/auth".into(),
    });

    assert_eq!(
        animation.render_active(),
        "main\n└── feat/auth (#42)\n    ├── \u{1b}[33m~\u{1b}[0m \u{1b}[33m\u{1b}[9mfeat/auth-api\u{1b}[0m\n    │   └── \u{1b}[32m✓\u{1b}[0m \u{1b}[32mfeat/auth-api-tests\u{1b}[0m\n    └── \u{1b}[32m✓\u{1b}[0m \u{1b}[32mfeat/auth-ui\u{1b}[0m"
    );
    assert_eq!(
        animation.render_final(),
        "main\n└── feat/auth (#42)\n    ├── \u{1b}[32m✓\u{1b}[0m \u{1b}[32mfeat/auth-api-tests\u{1b}[0m\n    └── \u{1b}[32m✓\u{1b}[0m \u{1b}[32mfeat/auth-ui\u{1b}[0m"
    );
}

#[test]
fn tick_advances_in_flight_throbber_without_changing_progress() {
    let mut animation = SyncAnimation::new(&sample_view());

    animation.apply_event(&SyncEvent::StageStarted(SyncStage::LocalSync {
        phase: PendingSyncPhase::RestackOutdatedLocalStacks,
        step_branch_name: "feat/auth".into(),
        active_branch_name: "feat/auth-api".into(),
        deleted_branches: Vec::new(),
        restacked_branches: Vec::new(),
    }));
    animation.apply_event(&SyncEvent::RestackProgress {
        branch_name: "feat/auth-api".into(),
        onto_branch: "feat/auth".into(),
        current_commit: 2,
        total_commits: 5,
    });

    let before = animation.render_active();

    assert!(animation.tick());

    let after = animation.render_active();

    assert!(before.contains("\u{1b}[38;5;208m/\u{1b}[0m"));
    assert!(after.contains("\u{1b}[38;5;208m-\u{1b}[0m"));
    assert!(before.contains("[2/5]"));
    assert!(after.contains("[2/5]"));
    assert!(after.contains("\u{1b}[38;5;208mfeat/auth-api\u{1b}[0m"));
}

#[test]
fn header_throbber_advances_without_changing_tree_body() {
    let mut animation = SyncAnimation::new(&sample_view());

    animation.apply_event(&SyncEvent::StageStarted(SyncStage::LocalSync {
        phase: PendingSyncPhase::RestackOutdatedLocalStacks,
        step_branch_name: "feat/auth".into(),
        active_branch_name: "feat/auth-api".into(),
        deleted_branches: Vec::new(),
        restacked_branches: Vec::new(),
    }));
    animation.apply_event(&SyncEvent::RestackProgress {
        branch_name: "feat/auth-api".into(),
        onto_branch: "feat/auth".into(),
        current_commit: 2,
        total_commits: 5,
    });

    let body = animation.render_active();
    let before = render_active_frame(Some((&SyncStatus::FetchingRemotes, 0)), Some(&body));
    let after = render_active_frame(Some((&SyncStatus::FetchingRemotes, 1)), Some(&body));

    assert!(before.contains("Fetching remotes"));
    assert!(after.contains("Fetching remotes"));
    assert!(before.contains("\u{1b}[38;5;208m|\u{1b}[0m"));
    assert!(after.contains("\u{1b}[38;5;208m/\u{1b}[0m"));
    assert_eq!(
        before.split_once("\n\n").map(|(_, body)| body),
        after.split_once("\n\n").map(|(_, body)| body)
    );
    assert!(after.contains("[2/5]"));
}

#[test]
fn final_frames_omit_status_header() {
    let animation = SyncAnimation::new(&sample_view());

    assert_eq!(
        render_active_frame(None, Some(&animation.render_active())),
        "main\n└── feat/auth (#42)\n    ├── feat/auth-api\n    │   └── feat/auth-api-tests\n    └── feat/auth-ui"
    );
}

#[test]
fn maps_cleanup_events_to_sync_status_bar_actions() {
    assert_eq!(
        status_from_clean_event(&CleanEvent::DeleteStarted {
            branch_name: "feat/auth".into(),
        }),
        Some(SyncStatus::DeletingBranch {
            branch_name: "feat/auth".into(),
        })
    );
    assert_eq!(
        status_from_clean_event(&CleanEvent::RebaseProgress {
            branch_name: "feat/auth-ui".into(),
            onto_branch: "main".into(),
            current_commit: 1,
            total_commits: 2,
        }),
        Some(SyncStatus::RestackingBranch {
            branch_name: "feat/auth-ui".into(),
            onto_branch: "main".into(),
        })
    );
    assert_eq!(
        status_from_clean_event(&CleanEvent::ArchiveCompleted {
            branch_name: "feat/auth".into(),
        }),
        None
    );
}

#[test]
fn renders_status_header_with_right_hand_throbber() {
    assert_eq!(
        render_status_header(
            &SyncStatus::UpdatingPullRequestBase {
                branch_name: "feat/auth".into(),
                pull_request_number: 42,
            },
            2,
        ),
        "\u{1b}[38;5;208mUpdating pull request #42 base for feat/auth\u{1b}[0m \u{1b}[38;5;208m-\u{1b}[0m"
    );
}

#[test]
fn status_change_events_leave_the_tree_unchanged() {
    let mut animation = SyncAnimation::new(&sample_view());
    let before = animation.render_active();
    assert!(!animation.apply_event(&SyncEvent::StatusChanged(SyncStatus::FetchingRemotes)));
    assert_eq!(animation.render_active(), before);
}

#[test]
fn tick_without_in_flight_branch_changes_nothing() {
    let mut animation = SyncAnimation::new(&sample_view());
    assert!(!animation.tick());
}

#[test]
fn apply_event_reports_change_only_for_branches_in_the_tree() {
    let mut animation = SyncAnimation::new(&sample_view());
    let before = animation.render_active();

    assert!(!animation.tick());
    assert!(!animation.apply_event(&SyncEvent::BranchArchived { branch_name: "feat/missing".into() }));
    assert!(!animation.apply_event(&SyncEvent::StatusChanged(SyncStatus::FetchingRemotes)));
    assert_eq!(animation.render_active(), before);
    assert!(animation.apply_event(&SyncEvent::RestackCompleted {
        branch_name: "feat/auth-ui".into(),
        onto_branch: "feat/auth".into(),
    }));
    assert_ne!(animation.render_active(), before);
}
