use dig_stack::error::ErrorKind;
use dig_stack::model::{BranchNode, DigState, ParentRef, DIG_STATE_VERSION};
use dig_stack::restack::{
    finalize_action, plan_after_branch_advance, plan_after_branch_detach, plan_after_branch_reparent,
    plan_after_deleted_branch, plan_after_deleted_branch_with_old_upstream_override, previews_for_actions,
    LocalBranchHead, MergeBaseFact, RepoFacts, RestackAction, RestackBaseTarget,
};

fn node(id: u128, name: &str, parent: ParentRef, base: &str, fork: &str, created: u64) -> BranchNode {
    BranchNode {
        id,
        branch_name: name.into(),
        parent,
        base_ref: base.into(),
        fork_point_oid: fork.into(),
        head_oid_at_creation: fork.into(),
        created_at_unix_secs: created,
        pull_request: None,
        archived: false,
    }
}

fn head(name: &str, oid: &str) -> LocalBranchHead {
    LocalBranchHead { branch_name: name.into(), head_oid: oid.into() }
}

#[test]
fn builds_restack_previews_from_actions() {
    let previews = previews_for_actions(&[
        RestackAction {
            node_id: 1,
            branch_name: "feat/auth-api".into(),
            old_upstream_branch_name: "feat/auth".into(),
            old_upstream_oid: "abc123".into(),
            new_base: RestackBaseTarget::local("main"),
            new_parent: Some(ParentRef::Trunk),
        },
        RestackAction {
            node_id: 2,
            branch_name: "feat/auth-api-tests".into(),
            old_upstream_branch_name: "feat/auth-api".into(),
            old_upstream_oid: "def456".into(),
            new_base: RestackBaseTarget::local("feat/auth-api"),
            new_parent: None,
        },
    ]);

    assert_eq!(previews[0].branch_name, "feat/auth-api");
    assert_eq!(previews[0].onto_branch, "main");
    assert!(previews[0].parent_changed);
    assert_eq!(previews[1].branch_name, "feat/auth-api-tests");
    assert_eq!(previews[1].onto_branch, "feat/auth-api");
    assert!(!previews[1].parent_changed);
}

#[test]
fn keeps_logical_base_name_separate_from_rebase_ref() {
    let action = RestackAction {
        node_id: 1,
        branch_name: "feat/auth-ui".into(),
        old_upstream_branch_name: "feat/auth".into(),
        old_upstream_oid: "abc123".into(),
        new_base: RestackBaseTarget::with_rebase_ref("main", "origin/main"),
        new_parent: Some(ParentRef::Trunk),
    };

    let previews = previews_for_actions(std::slice::from_ref(&action));

    assert_eq!(previews[0].onto_branch, "main");
    assert_eq!(action.new_base.rebase_ref(), "origin/main");
    assert_eq!(RestackBaseTarget::local("main").rebase_ref(), "main");
}

fn auth_stack() -> DigState {
    DigState {
        version: DIG_STATE_VERSION,
        nodes: vec![
            node(10, "feat/auth", ParentRef::Trunk, "main", "root", 1),
            node(20, "feat/auth-api", ParentRef::Branch { node_id: 10 }, "feat/auth", "auth", 2),
            node(30, "feat/auth-api-tests", ParentRef::Branch { node_id: 20 }, "feat/auth-api", "api", 3),
        ],
    }
}

fn auth_heads() -> RepoFacts {
    RepoFacts {
        heads: vec![
            head("main", "main-head"),
            head("feat/auth", "auth-head"),
            head("feat/auth-api", "api-head"),
            head("feat/auth-api-tests", "tests-head"),
        ],
        merge_bases: vec![],
    }
}

#[test]
fn plans_restack_after_branch_advance_with_old_head_for_immediate_child() {
    let state = auth_stack();
    let planned = plan_after_branch_advance(&state, &auth_heads(), 10, "feat/auth", "old-parent-head-oid").unwrap();

    assert_eq!(planned.len(), 2);
    assert_eq!(planned[0].node_id, 20);
    assert_eq!(planned[0].branch_name, "feat/auth-api");
    assert_eq!(planned[0].old_upstream_branch_name, "feat/auth");
    assert_eq!(planned[0].old_upstream_oid, "old-parent-head-oid");
    assert_eq!(planned[0].new_base.branch_name, "feat/auth");
    assert_eq!(planned[0].new_parent, None);

    assert_eq!(planned[1].node_id, 30);
    assert_eq!(planned[1].branch_name, "feat/auth-api-tests");
    assert_eq!(planned[1].old_upstream_branch_name, "feat/auth-api");
    assert_eq!(planned[1].old_upstream_oid, "api-head");
    assert_eq!(planned[1].new_base.branch_name, "feat/auth-api");
    assert_eq!(planned[1].new_parent, None);
}

#[test]
fn uses_deleted_branch_head_override_when_promoting_child() {
    let state = DigState {
        version: DIG_STATE_VERSION,
        nodes: vec![
            node(10, "feat/auth", ParentRef::Trunk, "main", "root", 1),
            node(40, "feat/auth-ui", ParentRef::Branch { node_id: 10 }, "feat/auth", "auth-head", 2),
        ],
    };
    let facts = RepoFacts { heads: vec![head("main", "m"), head("feat/auth-ui", "ui")], merge_bases: vec![] };

    let planned = plan_after_deleted_branch_with_old_upstream_override(
        &state,
        &facts,
        10,
        "feat/auth",
        &RestackBaseTarget::local("main"),
        &ParentRef::Trunk,
        "auth-head",
    )
    .unwrap();

    assert_eq!(planned.len(), 1);
    assert_eq!(planned[0].branch_name, "feat/auth-ui");
    assert_eq!(planned[0].old_upstream_branch_name, "feat/auth");
    assert_eq!(planned[0].old_upstream_oid, "auth-head");
    assert_eq!(planned[0].new_base.branch_name, "main");
    assert_eq!(planned[0].new_parent, Some(ParentRef::Trunk));
}

#[test]
fn plans_deleted_branch_from_merge_base_with_new_base() {
    let state = DigState {
        version: DIG_STATE_VERSION,
        nodes: vec![
            node(10, "feat/auth", ParentRef::Trunk, "main", "root", 1),
            node(40, "feat/auth-ui", ParentRef::Branch { node_id: 10 }, "feat/auth", "auth-head", 2),
        ],
    };
    let facts = RepoFacts {
        heads: vec![head("main", "m"), head("feat/auth-ui", "ui")],
        merge_bases: vec![MergeBaseFact { left: "main".into(), right: "feat/auth-ui".into(), oid: "base".into() }],
    };
    let planned =
        plan_after_deleted_branch(&state, &facts, 10, "feat/auth", &RestackBaseTarget::local("main"), &ParentRef::Trunk)
            .unwrap();
    assert_eq!(planned.len(), 1);
    assert_eq!(planned[0].old_upstream_oid, "base");

    let no_base = RepoFacts { heads: facts.heads.clone(), merge_bases: vec![] };
    let err =
        plan_after_deleted_branch(&state, &no_base, 10, "feat/auth", &RestackBaseTarget::local("main"), &ParentRef::Trunk)
            .unwrap_err();
    assert_eq!(err.kind, ErrorKind::Other);
    assert_eq!(err.message, "git command failed");
}

#[test]
fn plans_restack_after_branch_reparent_with_parent_change_only_on_target_branch() {
    let mut state = auth_stack();
    state.nodes.push(node(50, "feat/platform", ParentRef::Trunk, "main", "platform-root", 4));
    let mut facts = auth_heads();
    facts.heads.push(head("feat/platform", "platform-head"));
    facts.merge_bases.push(MergeBaseFact {
        left: "feat/auth".into(),
        right: "feat/auth-api".into(),
        oid: "auth-api-base".into(),
    });

    let planned = plan_after_branch_reparent(
        &state,
        &facts,
        20,
        "feat/auth-api",
        "feat/auth",
        &RestackBaseTarget::local("feat/platform"),
        &ParentRef::Branch { node_id: 50 },
    )
    .unwrap();

    assert_eq!(planned.len(), 2);
    assert_eq!(planned[0].node_id, 20);
    assert_eq!(planned[0].branch_name, "feat/auth-api");
    assert_eq!(planned[0].old_upstream_branch_name, "feat/auth");
    assert_eq!(planned[0].old_upstream_oid, "auth-api-base");
    assert_eq!(planned[0].new_base.branch_name, "feat/platform");
    assert_eq!(planned[0].new_parent, Some(ParentRef::Branch { node_id: 50 }));

    assert_eq!(planned[1].node_id, 30);
    assert_eq!(planned[1].branch_name, "feat/auth-api-tests");
    assert_eq!(planned[1].old_upstream_branch_name, "feat/auth-api");
    assert_eq!(planned[1].old_upstream_oid, "api-head");
    assert_eq!(planned[1].new_base.branch_name, "feat/auth-api");
    assert_eq!(planned[1].new_parent, None);
}

#[test]
fn detaching_moves_children_onto_the_new_base() {
    let state = auth_stack();
    let planned =
        plan_after_branch_detach(&state, &auth_heads(), 10, "feat/auth", &RestackBaseTarget::local("main"), &ParentRef::Trunk)
            .unwrap();
    assert_eq!(planned.len(), 2);
    assert_eq!(planned[0].branch_name, "feat/auth-api");
    assert_eq!(planned[0].old_upstream_oid, "auth-head");
    assert_eq!(planned[0].new_base.branch_name, "main");
    assert_eq!(planned[0].new_parent, Some(ParentRef::Trunk));
    assert_eq!(planned[1].new_parent, None);
}

#[test]
fn finalizing_an_action_records_the_new_parent() {
    let mut state = auth_stack();
    let planned =
        plan_after_branch_detach(&state, &auth_heads(), 10, "feat/auth", &RestackBaseTarget::local("main"), &ParentRef::Trunk)
            .unwrap();
    finalize_action(&mut state, &planned[0]).unwrap();
    assert_eq!(state.nodes[1].parent, ParentRef::Trunk);
    assert_eq!(state.nodes[1].base_ref, "main");
    assert_eq!(state.nodes[2].parent, ParentRef::Branch { node_id: 20 });
}
