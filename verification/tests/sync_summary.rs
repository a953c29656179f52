use dig_stack::clean_types::{CleanCandidate, CleanEvent, CleanPlan, CleanReason, CleanTreeNode};
use dig_stack::restack::RestackPreview;
use dig_stack::sync_render::{RemotePushActionKind, SyncStatus};
use dig_stack::sync_summary::{
    apply_cleanup_status, format_full_sync_summary, format_partial_remote_push_output,
    format_pull_request_update_success_output, format_remote_push_plan, format_remote_push_success_output,
    initial_cleanup_status, FullSyncOutcome, PullRequestRepair, PullRequestUpdateAction, RemotePushAction,
    RemotePushOutcome, RemotePushPlan, RemotePushTarget,
};

fn action(branch: &str, kind: RemotePushActionKind) -> RemotePushAction {
    RemotePushAction { target: RemotePushTarget { remote_name: "origin".into(), branch_name: branch.into() }, kind }
}

fn plan(candidates: Vec<CleanCandidate>) -> CleanPlan {
    CleanPlan {
        trunk_branch: "main".into(),
        current_branch: "main".into(),
        requested_branch_name: None,
        candidates,
        blocked: vec![],
    }
}

fn candidate(name: &str, reason: CleanReason, restack: Vec<RestackPreview>) -> CleanCandidate {
    CleanCandidate {
        node_id: 3,
        branch_name: name.into(),
        parent_branch_name: "main".into(),
        reason,
        tree: CleanTreeNode { branch_name: name.into(), children: vec![] },
        restack_plan: restack,
        depth: 0,
    }
}

#[test]
fn formats_remote_push_plan_with_each_kind() {
    let rendered = format_remote_push_plan(&RemotePushPlan {
        actions: vec![
            action("feat/a", RemotePushActionKind::Create),
            action("feat/b", RemotePushActionKind::Update),
            action("feat/c", RemotePushActionKind::ForceUpdate),
        ],
    });
    assert_eq!(
        rendered,
        "Remote branches to update:\n- create feat/a on origin\n- push feat/b on origin\n- force-push feat/c on origin"
    );
}

#[test]
fn formats_remote_push_outcomes() {
    let outcome = RemotePushOutcome {
        pushed_actions: vec![action("feat/a", RemotePushActionKind::Create), action("feat/c", RemotePushActionKind::ForceUpdate)],
        failed_action: Some(action("feat/d", RemotePushActionKind::Update)),
        failure_output: Some("rejected".into()),
    };
    assert_eq!(
        format_remote_push_success_output(&outcome),
        "Updated remote branches:\n- created feat/a on origin\n- force-pushed feat/c on origin"
    );
    assert_eq!(
        format_partial_remote_push_output("Updated before failure:", &outcome),
        "Updated before failure:\n- created feat/a on origin\n- force-pushed feat/c on origin"
    );
    let nothing = RemotePushOutcome { pushed_actions: vec![], failed_action: None, failure_output: None };
    assert_eq!(format_partial_remote_push_output("Updated before failure:", &nothing), "");
}

#[test]
fn formats_pull_request_updates() {
    assert_eq!(format_pull_request_update_success_output(&vec![]), "");
    let rendered = format_pull_request_update_success_output(&vec![PullRequestUpdateAction {
        branch_name: "feat/api".into(),
        pull_request_number: 42,
        new_base_branch_name: "main".into(),
    }]);
    assert_eq!(rendered, "Updated pull requests:\n- retargeted #42 for feat/api to main");
}

#[test]
fn formats_full_sync_summary_sections() {
    let outcome = FullSyncOutcome {
        repaired_pull_requests: vec![PullRequestRepair {
            branch_name: "feat/api".into(),
            pull_request_number: 7,
            old_base_branch_name: "feat/auth".into(),
            new_base_branch_name: "main".into(),
        }],
        deleted_branches: vec!["feat/auth".into()],
        restacked_branches: vec![RestackPreview {
            branch_name: "feat/api".into(),
            onto_branch: "main".into(),
            parent_changed: true,
        }],
        cleanup_plan: plan(vec![]),
    };
    assert_eq!(
        format_full_sync_summary(&outcome),
        "Recovered pull requests:\n- feat/api (#7): reopened as draft and retargeted from feat/auth to main\n\nDeleted locally and no longer tracked by dagger:\n- feat/auth\n\nRestacked:\n- feat/api onto main"
    );
}

#[test]
fn full_sync_summary_says_when_stacks_are_in_sync() {
    let quiet = FullSyncOutcome {
        repaired_pull_requests: vec![],
        deleted_branches: vec![],
        restacked_branches: vec![],
        cleanup_plan: plan(vec![]),
    };
    assert_eq!(format_full_sync_summary(&quiet), "Local stacks are already in sync.");

    let cleanup_pending = FullSyncOutcome {
        cleanup_plan: plan(vec![candidate("feat/a", CleanReason::DeletedLocally, vec![])]),
        ..quiet
    };
    assert_eq!(format_full_sync_summary(&cleanup_pending), "");
}

#[test]
fn cleanup_status_starts_with_first_rebase_or_removal() {
    assert!(initial_cleanup_status(&plan(vec![])).is_none());
    let with_rebase = plan(vec![candidate(
        "feat/a",
        CleanReason::IntegratedIntoParent { parent_branch: "main".into() },
        vec![RestackPreview { branch_name: "feat/b".into(), onto_branch: "main".into(), parent_changed: true }],
    )]);
    assert_eq!(
        initial_cleanup_status(&with_rebase),
        Some(SyncStatus::RestackingBranch { branch_name: "feat/b".into(), onto_branch: "main".into() })
    );
    let archive = plan(vec![candidate("feat/a", CleanReason::DeletedLocally, vec![])]);
    assert_eq!(initial_cleanup_status(&archive), Some(SyncStatus::ArchivingBranch { branch_name: "feat/a".into() }));
    let delete = plan(vec![candidate("feat/a", CleanReason::IntegratedIntoParent { parent_branch: "main".into() }, vec![])]);
    assert_eq!(initial_cleanup_status(&delete), Some(SyncStatus::DeletingBranch { branch_name: "feat/a".into() }));
}

#[test]
fn cleanup_status_moves_only_on_a_new_status() {
    let mut status = Some(SyncStatus::DeletingBranch { branch_name: "feat/a".into() });
    let mut frame = 4usize;
    assert!(!apply_cleanup_status(&mut status, &mut frame, &CleanEvent::DeleteStarted { branch_name: "feat/a".into() }));
    assert_eq!(frame, 4);
    assert!(!apply_cleanup_status(&mut status, &mut frame, &CleanEvent::DeleteCompleted { branch_name: "feat/a".into() }));
    assert!(apply_cleanup_status(
        &mut status,
        &mut frame,
        &CleanEvent::RebaseStarted { branch_name: "feat/b".into(), onto_branch: "main".into() }
    ));
    assert_eq!(frame, 0);
    assert_eq!(status, Some(SyncStatus::RestackingBranch { branch_name: "feat/b".into(), onto_branch: "main".into() }));
}
