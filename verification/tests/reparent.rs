use dig_stack::error::ErrorKind;
use dig_stack::model::{BranchNode, DigConfig, DigState, ParentRef, DIG_STATE_VERSION};
use dig_stack::options::ReparentOptions;
use dig_stack::reparent::plan;
use dig_stack::restack::{
    finalize_action, plan_after_branch_reparent, LocalBranchHead, MergeBaseFact, RepoFacts, RestackBaseTarget,
};

fn node(id: u128, name: &str, parent: ParentRef, base_ref: &str) -> BranchNode {
    BranchNode {
        id,
        branch_name: name.into(),
        parent,
        base_ref: base_ref.into(),
        fork_point_oid: "f".into(),
        head_oid_at_creation: "f".into(),
        created_at_unix_secs: 1,
        pull_request: None,
        archived: false,
    }
}

fn head(name: &str) -> LocalBranchHead {
    LocalBranchHead { branch_name: name.into(), head_oid: format!("{}-head", name) }
}

fn base(left: &str, right: &str, oid: &str) -> MergeBaseFact {
    MergeBaseFact { left: left.into(), right: right.into(), oid: oid.into() }
}

fn config() -> DigConfig {
    DigConfig::new("main".into())
}

fn options(branch: Option<&str>, parent: &str) -> ReparentOptions {
    ReparentOptions { branch_name: branch.map(|b| b.to_string()), parent_branch_name: parent.into() }
}

// main <- feat/auth(1) <- feat/auth-ui(2); main <- feat/platform(3)
fn state() -> DigState {
    DigState {
        version: DIG_STATE_VERSION,
        nodes: vec![
            node(1, "feat/auth", ParentRef::Trunk, "main"),
            node(2, "feat/auth-ui", ParentRef::Branch { node_id: 1 }, "feat/auth"),
            node(3, "feat/platform", ParentRef::Trunk, "main"),
        ],
    }
}

fn facts() -> RepoFacts {
    RepoFacts {
        heads: vec![head("main"), head("feat/auth"), head("feat/auth-ui"), head("feat/platform")],
        merge_bases: vec![base("main", "feat/auth", "main-head"), base("feat/auth", "feat/auth-ui", "feat/auth-head")],
    }
}

#[test]
fn defaults_to_current_branch_when_name_is_omitted() {
    let plan = plan(&options(None, "main"), "feat/auth-ui", &state(), &config(), &facts()).unwrap();

    assert_eq!(plan.branch_name, "feat/auth-ui");
    assert_eq!(plan.parent_branch_name, "main");
}

#[test]
fn rejects_reparenting_to_current_parent() {
    let error = plan(&options(Some("feat/auth-ui"), "feat/auth"), "feat/auth-ui", &state(), &config(), &facts())
        .unwrap_err();

    assert_eq!(error.kind(), ErrorKind::InvalidInput);
    assert_eq!(error.to_string(), "branch 'feat/auth-ui' is already parented to 'feat/auth'");
}

#[test]
fn rejects_reparenting_onto_descendant() {
    let state = DigState {
        version: DIG_STATE_VERSION,
        nodes: vec![
            node(1, "feat/auth", ParentRef::Trunk, "main"),
            node(2, "feat/auth-api", ParentRef::Branch { node_id: 1 }, "feat/auth"),
            node(3, "feat/auth-api-tests", ParentRef::Branch { node_id: 2 }, "feat/auth-api"),
        ],
    };
    let facts = RepoFacts {
        heads: vec![head("main"), head("feat/auth"), head("feat/auth-api"), head("feat/auth-api-tests")],
        merge_bases: vec![base("main", "feat/auth", "main-head")],
    };
    let error = plan(&options(Some("feat/auth"), "feat/auth-api"), "feat/auth-api-tests", &state, &config(), &facts)
        .unwrap_err();

    assert_eq!(error.kind(), ErrorKind::InvalidInput);
    assert_eq!(error.to_string(), "cannot reparent 'feat/auth' onto descendant 'feat/auth-api'");
}

#[test]
fn reparents_tracked_branch_and_restacks_descendants() {
    let mut state = state();
    let facts = facts();
    let plan = plan(&options(Some("feat/auth"), "feat/platform"), "main", &state, &config(), &facts).unwrap();

    assert_eq!(
        plan.restack_plan.iter().map(|step| format!("{}->{}", step.branch_name, step.onto_branch)).collect::<Vec<_>>(),
        vec!["feat/auth->feat/platform".to_string(), "feat/auth-ui->feat/auth".to_string()]
    );
    assert_eq!(plan.original_branch, "main");
    assert_eq!(plan.current_parent_branch_name, "main");
    assert_eq!(plan.current_parent, ParentRef::Trunk);
    assert_eq!(plan.new_parent, ParentRef::Branch { node_id: 3 });

    let actions = plan_after_branch_reparent(
        &state,
        &facts,
        plan.node_id,
        &plan.branch_name,
        &plan.current_parent_branch_name,
        &RestackBaseTarget::local(&plan.parent_branch_name),
        &plan.new_parent,
    )
    .unwrap();
    assert_eq!(actions[0].old_upstream_oid, "main-head");
    assert_eq!(actions[1].old_upstream_oid, "feat/auth-head");
    for action in &actions {
        finalize_action(&mut state, action).unwrap();
    }

    let auth = state.find_branch_by_name("feat/auth").unwrap();
    let platform = state.find_branch_by_name("feat/platform").unwrap();
    let ui = state.find_branch_by_name("feat/auth-ui").unwrap();
    assert_eq!(auth.parent, ParentRef::Branch { node_id: platform.id });
    assert_eq!(auth.base_ref, "feat/platform");
    assert_eq!(ui.parent, ParentRef::Branch { node_id: auth.id });
    assert_eq!(ui.base_ref, "feat/auth");
}

#[test]
fn reparent_refuses_bad_requests() {
    let cases: Vec<(ReparentOptions, ErrorKind, &str)> = vec![
        (options(Some(" "), "main"), ErrorKind::InvalidInput, "branch name cannot be empty"),
        (options(Some("feat/auth"), "  "), ErrorKind::InvalidInput, "parent branch name cannot be empty"),
        (options(Some("main"), "feat/auth"), ErrorKind::InvalidInput, "cannot reparent trunk branch 'main'"),
        (options(Some("feat/auth"), "feat/auth"), ErrorKind::InvalidInput, "branch cannot list itself as its parent"),
        (options(Some("feat/gone"), "main"), ErrorKind::NotFound, "branch 'feat/gone' does not exist"),
        (options(Some("feat/auth"), "feat/gone"), ErrorKind::NotFound, "parent branch 'feat/gone' does not exist"),
    ];
    for (opts, kind, message) in cases {
        let error = plan(&opts, "main", &state(), &config(), &facts()).unwrap_err();
        assert_eq!(error.kind(), kind);
        assert_eq!(error.to_string(), message);
    }

    let mut with_untracked = facts();
    with_untracked.heads.push(head("scratch"));
    let error = plan(&options(Some("scratch"), "main"), "main", &state(), &config(), &with_untracked).unwrap_err();
    assert_eq!(error.kind(), ErrorKind::NotFound);
    assert_eq!(error.to_string(), "branch 'scratch' is not tracked by dagger");

    let mut untracked_parent = facts();
    untracked_parent.heads.push(head("scratch"));
    let error = plan(&options(Some("feat/auth"), "scratch"), "main", &state(), &config(), &untracked_parent).unwrap_err();
    assert_eq!(error.kind(), ErrorKind::NotFound);
    assert_eq!(
        error.to_string(),
        "parent branch 'scratch' is not tracked by dig and does not match trunk 'main'"
    );
}
