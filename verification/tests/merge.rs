use dig_stack::error::ErrorKind;
use dig_stack::graph::BranchTreeNode;
use dig_stack::merge::{plan, MergeMode, MergeOptions, MergePlan};
use dig_stack::model::{BranchNode, DigConfig, DigState, ParentRef, DIG_STATE_VERSION};
use dig_stack::restack::{
    finalize_action, plan_after_deleted_branch, LocalBranchHead, MergeBaseFact, RepoFacts, RestackBaseTarget,
    RestackPreview,
};
use dig_stack::summary::{format_merge_plan, format_merge_resume_success_output, format_merge_success_output};

fn node(id: u128, name: &str, parent: ParentRef, base_ref: &str) -> BranchNode {
    BranchNode {
        id,
        branch_name: name.into(),
        parent,
        base_ref: base_ref.into(),
        fork_point_oid: "f".into(),
        head_oid_at_creation: "f".into(),
        created_at_unix_secs: 1,
        pull_request: None,
        archived: false,
    }
}

fn head(name: &str) -> LocalBranchHead {
    LocalBranchHead { branch_name: name.into(), head_oid: format!("{}-head", name) }
}

fn base(left: &str, right: &str, oid: &str) -> MergeBaseFact {
    MergeBaseFact { left: left.into(), right: right.into(), oid: oid.into() }
}

fn config() -> DigConfig {
    DigConfig::new("main".into())
}

fn options(branch: &str, mode: MergeMode, messages: Vec<String>) -> MergeOptions {
    MergeOptions { branch_name: branch.into(), mode, messages }
}

// main <- feat/auth(1) <- feat/auth-api(2) <- feat/auth-api-tests(3)
fn state() -> DigState {
    DigState {
        version: DIG_STATE_VERSION,
        nodes: vec![
            node(1, "feat/auth", ParentRef::Trunk, "main"),
            node(2, "feat/auth-api", ParentRef::Branch { node_id: 1 }, "feat/auth"),
            node(3, "feat/auth-api-tests", ParentRef::Branch { node_id: 2 }, "feat/auth-api"),
        ],
    }
}

fn facts() -> RepoFacts {
    RepoFacts {
        heads: vec![head("main"), head("feat/auth"), head("feat/auth-api"), head("feat/auth-api-tests")],
        merge_bases: vec![
            base("feat/auth", "feat/auth-api-tests", "feat/auth-api-head"),
            base("main", "feat/auth-api", "feat/auth-head"),
        ],
    }
}

fn leaf(name: &str) -> BranchTreeNode {
    BranchTreeNode { branch_name: name.into(), children: vec![] }
}

fn merge_plan(current: &str, source: &str, target: &str, restack_plan: Vec<RestackPreview>) -> MergePlan {
    MergePlan {
        trunk_branch: "main".into(),
        current_branch: current.into(),
        source_branch_name: source.into(),
        target_branch_name: target.into(),
        source_node_id: 7,
        mode: MergeMode::Normal,
        messages: vec![],
        tree: leaf(source),
        restack_plan,
    }
}

#[test]
fn merges_child_into_parent_and_restacks_descendants() {
    let mut state = state();
    let facts = facts();
    let merge_plan = plan(&options("feat/auth-api", MergeMode::Normal, vec![]), "feat/auth-api", &state, &config(), &facts)
        .unwrap();

    assert_eq!(merge_plan.target_branch_name, "feat/auth");
    assert!(merge_plan.requires_target_checkout());
    assert_eq!(
        merge_plan
            .restack_plan
            .iter()
            .map(|step| format!("{}->{}", step.branch_name, step.onto_branch))
            .collect::<Vec<_>>(),
        vec!["feat/auth-api-tests->feat/auth".to_string()]
    );
    assert_eq!(merge_plan.tree.branch_name, "feat/auth-api");
    assert_eq!(merge_plan.tree.children[0].branch_name, "feat/auth-api-tests");

    let source = state.find_branch_by_id(merge_plan.source_node_id).unwrap().clone();
    let actions = plan_after_deleted_branch(
        &state,
        &facts,
        source.id,
        &merge_plan.source_branch_name,
        &RestackBaseTarget::local(&merge_plan.target_branch_name),
        &source.parent,
    )
    .unwrap();
    assert_eq!(actions[0].old_upstream_oid, "feat/auth-api-head");
    for action in &actions {
        finalize_action(&mut state, action).unwrap();
    }
    let restacked_child = state.find_branch_by_name("feat/auth-api-tests").unwrap();
    assert_eq!(restacked_child.parent, ParentRef::Branch { node_id: state.find_branch_by_name("feat/auth").unwrap().id });
    assert_eq!(restacked_child.base_ref, "feat/auth");
}

#[test]
fn squash_merges_into_trunk_and_keeps_branch_when_delete_is_declined() {
    let state = DigState {
        version: DIG_STATE_VERSION,
        nodes: vec![
            node(1, "feat/auth", ParentRef::Trunk, "main"),
            node(2, "feat/auth-api", ParentRef::Branch { node_id: 1 }, "feat/auth"),
        ],
    };
    let facts = RepoFacts {
        heads: vec![head("main"), head("feat/auth"), head("feat/auth-api")],
        merge_bases: vec![base("main", "feat/auth-api", "main-head")],
    };
    let merge_plan = plan(
        &options("feat/auth", MergeMode::Squash, vec!["custom merge".into()]),
        "feat/auth",
        &state,
        &config(),
        &facts,
    )
    .unwrap();

    assert_eq!(merge_plan.mode, MergeMode::Squash);
    assert_eq!(merge_plan.messages, vec!["custom merge".to_string()]);
    assert_eq!(merge_plan.target_branch_name, "main");
    assert_eq!(
        merge_plan
            .restack_plan
            .iter()
            .map(|step| format!("{}->{}", step.branch_name, step.onto_branch))
            .collect::<Vec<_>>(),
        vec!["feat/auth-api->main".to_string()]
    );
}

#[test]
fn merge_plan_refuses_missing_descendants_and_untracked_branches() {
    let gone = RepoFacts { heads: vec![head("main"), head("feat/auth"), head("feat/auth-api")], merge_bases: vec![] };
    let error = plan(&options("feat/auth", MergeMode::Normal, vec![]), "main", &state(), &config(), &gone).unwrap_err();
    assert_eq!(error.kind, ErrorKind::NotFound);
    assert_eq!(error.message, "tracked descendants of 'feat/auth' are missing locally: feat/auth-api-tests");

    let error = plan(&options("  ", MergeMode::Normal, vec![]), "main", &state(), &config(), &facts()).unwrap_err();
    assert_eq!(error.message, "branch name cannot be empty");

    let mut scratch = facts();
    scratch.heads.push(head("scratch"));
    let error = plan(&options("scratch", MergeMode::Normal, vec![]), "main", &state(), &config(), &scratch).unwrap_err();
    assert_eq!(error.kind, ErrorKind::NotFound);
    assert_eq!(error.message, "branch 'scratch' is not tracked by dig");

    let error = plan(&options("feat/nope", MergeMode::Normal, vec![]), "main", &state(), &config(), &facts()).unwrap_err();
    assert_eq!(error.message, "branch 'feat/nope' does not exist");
}

#[test]
fn formats_merge_plan_with_restack_preview() {
    let rendered = format_merge_plan(&merge_plan(
        "feat/auth-api",
        "feat/auth-api",
        "feat/auth",
        vec![RestackPreview {
            branch_name: "feat/auth-api-tests".into(),
            onto_branch: "feat/auth".into(),
            parent_changed: true,
        }],
    ));

    assert_eq!(
        rendered,
        "Merge plan:\n- feat/auth-api into feat/auth\n  restack feat/auth-api-tests onto feat/auth\n\nWill switch from 'feat/auth-api' to 'feat/auth' before merge."
    );
}

#[test]
fn formats_merge_plan_without_checkout_when_on_target() {
    let rendered = format_merge_plan(&merge_plan("feat/auth", "feat/auth-api", "feat/auth", vec![]));
    assert_eq!(rendered, "Merge plan:\n- feat/auth-api into feat/auth");
}

#[test]
fn formats_merge_success_summary_and_tree() {
    let rendered = format_merge_success_output(
        &merge_plan("feat/auth", "feat/auth-api", "feat/auth", vec![]),
        Some("feat/auth-api"),
        &vec![RestackPreview {
            branch_name: "feat/auth-api-tests".into(),
            onto_branch: "feat/auth".into(),
            parent_changed: true,
        }],
        Some("feat/auth-api"),
        "feat/auth\n└── feat/auth-api-tests",
    );

    assert_eq!(
        rendered,
        "Switched from 'feat/auth-api' to 'feat/auth' before merge.\nMerged 'feat/auth-api' into 'feat/auth'.\n\nRestacked:\n- feat/auth-api-tests onto feat/auth\n\nDeleted:\n- feat/auth-api\n\nfeat/auth\n└── feat/auth-api-tests"
    );
}

#[test]
fn formats_merge_summary_that_kept_the_branch() {
    let rendered = format_merge_resume_success_output("feat/auth", "main", None, &vec![], None, "  ");
    assert_eq!(rendered, "Merged 'feat/auth' into 'main'.\n\nKept merged branch 'feat/auth'.");
}
