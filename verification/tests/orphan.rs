use dig_stack::error::ErrorKind;
use dig_stack::model::{BranchNode, DigConfig, DigState, ParentRef, DIG_STATE_VERSION};
use dig_stack::options::OrphanOptions;
use dig_stack::orphan::plan;
use dig_stack::restack::{finalize_action, plan_after_branch_detach, LocalBranchHead, RepoFacts, RestackBaseTarget};

fn node(id: u128, name: &str, parent: ParentRef, base_ref: &str) -> BranchNode {
    BranchNode {
        id,
        branch_name: name.into(),
        parent,
        base_ref: base_ref.into(),
        fork_point_oid: "f".into(),
        head_oid_at_creation: "f".into(),
        created_at_unix_secs: 1,
        pull_request: None,
        archived: false,
    }
}

fn head(name: &str) -> LocalBranchHead {
    LocalBranchHead { branch_name: name.into(), head_oid: format!("{}-head", name) }
}

fn config() -> DigConfig {
    DigConfig::new("main".into())
}

// main <- feat/auth(1) <- feat/auth-ui(2)
fn state() -> DigState {
    DigState {
        version: DIG_STATE_VERSION,
        nodes: vec![
            node(1, "feat/auth", ParentRef::Trunk, "main"),
            node(2, "feat/auth-ui", ParentRef::Branch { node_id: 1 }, "feat/auth"),
        ],
    }
}

fn facts() -> RepoFacts {
    RepoFacts { heads: vec![head("main"), head("feat/auth"), head("feat/auth-ui")], merge_bases: vec![] }
}

#[test]
fn rejects_orphaning_trunk_branch() {
    let error = plan(&OrphanOptions { branch_name: Some("main".into()) }, "feat/auth-ui", &state(), &config(), &facts())
        .unwrap_err();

    assert_eq!(error.kind(), ErrorKind::InvalidInput);
    assert_eq!(error.to_string(), "cannot orphan trunk branch 'main'");
}

#[test]
fn orphans_tracked_branch_and_restacks_descendants() {
    let mut state = state();
    let facts = facts();
    let plan = plan(&OrphanOptions { branch_name: Some("feat/auth".into()) }, "feat/auth", &state, &config(), &facts)
        .unwrap();

    assert_eq!(
        plan.restack_plan.iter().map(|step| format!("{}->{}", step.branch_name, step.onto_branch)).collect::<Vec<_>>(),
        vec!["feat/auth-ui->main".to_string()]
    );
    assert_eq!(plan.original_branch, "feat/auth");
    assert_eq!(plan.parent_branch_name, "main");
    assert_eq!(plan.node_id, 1);

    let node = state.find_branch_by_id(plan.node_id).unwrap().clone();
    let actions = plan_after_branch_detach(
        &state,
        &facts,
        node.id,
        &node.branch_name,
        &RestackBaseTarget::local(&plan.parent_branch_name),
        &node.parent,
    )
    .unwrap();
    for action in &actions {
        finalize_action(&mut state, action).unwrap();
    }
    state.archive_branch(plan.node_id).unwrap();

    let child = state.find_branch_by_name("feat/auth-ui").unwrap();
    assert_eq!(child.parent, ParentRef::Trunk);
    assert_eq!(child.base_ref, "main");
    assert!(state.nodes.iter().any(|node| node.branch_name == "feat/auth" && node.archived));
}

#[test]
fn orphan_defaults_to_the_current_branch() {
    let plan = plan(&OrphanOptions { branch_name: None }, "  feat/auth-ui ", &state(), &config(), &facts()).unwrap();
    assert_eq!(plan.branch_name, "feat/auth-ui");
    assert_eq!(plan.parent_branch_name, "feat/auth");
    assert!(plan.restack_plan.is_empty());
}

#[test]
fn orphan_refuses_blank_missing_and_untracked_branches() {
    let error = plan(&OrphanOptions { branch_name: Some("  ".into()) }, "feat/auth", &state(), &config(), &facts())
        .unwrap_err();
    assert_eq!(error.kind(), ErrorKind::InvalidInput);
    assert_eq!(error.to_string(), "branch name cannot be empty");

    let error = plan(&OrphanOptions { branch_name: Some("feat/gone".into()) }, "main", &state(), &config(), &facts())
        .unwrap_err();
    assert_eq!(error.kind(), ErrorKind::NotFound);
    assert_eq!(error.to_string(), "branch 'feat/gone' does not exist");

    let mut with_untracked = facts();
    with_untracked.heads.push(head("scratch"));
    let error = plan(&OrphanOptions { branch_name: Some("scratch".into()) }, "main", &state(), &config(), &with_untracked)
        .unwrap_err();
    assert_eq!(error.kind(), ErrorKind::NotFound);
    assert_eq!(error.to_string(), "branch 'scratch' is not tracked by dig");
}

#[test]
fn orphan_refuses_missing_parent_and_descendants() {
    let mut no_parent = state();
    no_parent.nodes[1].parent = ParentRef::Branch { node_id: 9 };
    let error = plan(&OrphanOptions { branch_name: Some("feat/auth-ui".into()) }, "main", &no_parent, &config(), &facts())
        .unwrap_err();
    assert_eq!(error.kind(), ErrorKind::Other);
    assert_eq!(error.to_string(), "tracked parent for 'feat/auth-ui' is missing from dig");

    let parent_gone = RepoFacts { heads: vec![head("main"), head("feat/auth-ui")], merge_bases: vec![] };
    let error = plan(&OrphanOptions { branch_name: Some("feat/auth-ui".into()) }, "main", &state(), &config(), &parent_gone)
        .unwrap_err();
    assert_eq!(error.kind(), ErrorKind::NotFound);
    assert_eq!(error.to_string(), "parent branch 'feat/auth' does not exist");

    let child_gone = RepoFacts { heads: vec![head("main"), head("feat/auth")], merge_bases: vec![] };
    let error = plan(&OrphanOptions { branch_name: Some("feat/auth".into()) }, "main", &state(), &config(), &child_gone)
        .unwrap_err();
    assert_eq!(error.kind(), ErrorKind::NotFound);
    assert_eq!(error.to_string(), "tracked descendants of 'feat/auth' are missing locally: feat/auth-ui");
}
