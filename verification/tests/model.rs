use dig_stack::error::ErrorKind;
use dig_stack::model::{
    BranchNode, DigConfig, DigState, ParentRef, StoreInitialization, TrackedPullRequest, DIG_CONFIG_VERSION,
    DIG_STATE_VERSION,
};
use dig_stack::pending::{
    PendingCommitOperation, PendingOperationKind, PendingOperationState, PendingOrphanOperation,
    PendingReparentOperation, PendingSyncOperation, PendingSyncPhase,
};
use dig_stack::restack::{RestackAction, RestackBaseTarget};

fn node(id: u128, name: &str) -> BranchNode {
    BranchNode {
        id,
        branch_name: name.into(),
        parent: ParentRef::Trunk,
        base_ref: "main".into(),
        fork_point_oid: "abc123".into(),
        head_oid_at_creation: "abc123".into(),
        created_at_unix_secs: 1,
        pull_request: None,
        archived: false,
    }
}

#[test]
fn tracks_roots_with_union_parent_ref() {
    let node = node(0, "feature/api");

    let mut state = DigState::empty();
    state.insert_branch(node.clone()).unwrap();

    assert_eq!(state.find_branch_by_name("feature/api"), Some(&node));
}

#[test]
fn refuses_to_track_a_branch_twice() {
    let mut state = DigState::empty();
    state.insert_branch(node(1, "feature/api")).unwrap();
    let err = state.insert_branch(node(2, "feature/api")).unwrap_err();
    assert_eq!(err.kind, ErrorKind::AlreadyExists);
    assert_eq!(err.message, "branch 'feature/api' is already tracked by dig");
    assert_eq!(state.nodes.len(), 1);
}

#[test]
fn archived_branches_are_no_longer_found() {
    let mut state = DigState::empty();
    state.insert_branch(node(1, "feature/api")).unwrap();
    state.archive_branch(1).unwrap();
    assert!(state.find_branch_by_name("feature/api").is_none());
    assert!(state.find_branch_by_id(1).is_none());
    assert_eq!(state.archive_branch(1).unwrap_err().kind, ErrorKind::NotFound);
    state.insert_branch(node(2, "feature/api")).unwrap();
    assert_eq!(state.find_branch_by_name("feature/api").unwrap().id, 2);
}

#[test]
fn reparents_and_tracks_pull_requests() {
    let mut state = DigState::empty();
    state.insert_branch(node(1, "feature/base")).unwrap();
    state.insert_branch(node(2, "feature/api")).unwrap();
    let (old_parent, old_base) =
        state.reparent_branch(2, ParentRef::Branch { node_id: 1 }, "feature/base".into()).unwrap();
    assert_eq!(old_parent, ParentRef::Trunk);
    assert_eq!(old_base, "main");
    assert_eq!(state.nodes[1].parent, ParentRef::Branch { node_id: 1 });
    assert_eq!(state.nodes[1].base_ref, "feature/base");

    state.track_pull_request(2, TrackedPullRequest { number: 9 }).unwrap();
    assert_eq!(state.nodes[1].pull_request, Some(TrackedPullRequest { number: 9 }));
    assert!(state.track_pull_request(77, TrackedPullRequest { number: 1 }).is_err());
}

#[test]
fn builds_config_with_trunk_branch() {
    assert_eq!(DigConfig::new("main".into()).trunk_branch, "main");
    assert_eq!(DigConfig::new("main".into()).version, DIG_CONFIG_VERSION);
    assert_eq!(DigState::empty().version, DIG_STATE_VERSION);
}

#[test]
fn reports_when_bootstrap_created_files() {
    let initialization = StoreInitialization { created_config: true, created_state: false, created_events: false };

    assert!(initialization.created_anything());
    let nothing = StoreInitialization { created_config: false, created_state: false, created_events: false };
    assert!(!nothing.created_anything());
}

#[test]
fn advances_pending_operation_queue_after_success() {
    let first_action = RestackAction {
        node_id: 1,
        branch_name: "feature/api-followup".into(),
        old_upstream_branch_name: "feature/api".into(),
        old_upstream_oid: "abc123".into(),
        new_base: RestackBaseTarget::local("feature/api"),
        new_parent: None,
    };
    let second_action = RestackAction {
        node_id: 2,
        branch_name: "feature/api-tests".into(),
        old_upstream_branch_name: "feature/api-followup".into(),
        old_upstream_oid: "def456".into(),
        new_base: RestackBaseTarget::local("feature/api-followup"),
        new_parent: Some(ParentRef::Trunk),
    };
    let operation = PendingOperationState::start(
        PendingOperationKind::Commit(PendingCommitOperation {
            current_branch: "feature/api".into(),
            summary_line: Some("1 file changed".into()),
            recent_commits: Vec::new(),
        }),
        vec![first_action.clone(), second_action.clone()],
    )
    .unwrap();

    assert_eq!(operation.active_action(), &first_action);

    let (first_preview, operation) = operation.advance_after_success();
    let operation = operation.unwrap();

    assert_eq!(first_preview.branch_name, "feature/api-followup");
    assert_eq!(operation.active_action(), &second_action);
    assert_eq!(operation.completed_branches(), &[first_preview]);

    let (_, operation) = operation.advance_after_success();

    assert!(operation.is_none());
}

#[test]
fn starting_without_actions_gives_nothing() {
    let operation = PendingOperationState::start(
        PendingOperationKind::Commit(PendingCommitOperation {
            current_branch: "feature/api".into(),
            summary_line: None,
            recent_commits: Vec::new(),
        }),
        vec![],
    );
    assert!(operation.is_none());
}

#[test]
fn reports_orphan_operation_command_name() {
    let operation = PendingOperationKind::Orphan(PendingOrphanOperation {
        original_branch: "feature/api".into(),
        branch_name: "feature/api".into(),
        parent_branch_name: "main".into(),
        node_id: 0,
    });

    assert_eq!(operation.command_name(), "orphan");
}

#[test]
fn reports_sync_operation_command_name() {
    let operation = PendingOperationKind::Sync(PendingSyncOperation {
        original_branch: "feature/api".into(),
        deleted_branches: vec!["feature/missing".into()],
        restacked_branches: Vec::new(),
        phase: PendingSyncPhase::ReconcileDeletedLocalBranches,
        step_branch_name: "feature/missing".into(),
    });

    assert_eq!(operation.command_name(), "sync");
}

#[test]
fn reports_reparent_operation_command_name() {
    let operation = PendingOperationKind::Reparent(PendingReparentOperation {
        original_branch: "feature/main".into(),
        branch_name: "feature/api".into(),
        parent_branch_name: "feature/platform".into(),
    });

    assert_eq!(operation.command_name(), "reparent");
}

#[test]
fn default_state_is_empty_and_current() {
    let state = DigState::default();
    assert_eq!(state.version, DIG_STATE_VERSION);
    assert!(state.nodes.is_empty());
}
