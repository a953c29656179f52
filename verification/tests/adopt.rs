use dig_stack::adopt::{adopt_rebase_action, adopted_node, plan, recheck_before_apply, restore_failure_message};
use dig_stack::error::ErrorKind;
use dig_stack::model::{BranchNode, DigConfig, DigState, ParentRef, DIG_STATE_VERSION};
use dig_stack::options::AdoptOptions;
use dig_stack::restack::{LocalBranchHead, MergeBaseFact, RepoFacts};

fn node(id: u128, name: &str, parent: ParentRef) -> BranchNode {
    BranchNode {
        id,
        branch_name: name.into(),
        parent,
        base_ref: "main".into(),
        fork_point_oid: "f".into(),
        head_oid_at_creation: "f".into(),
        created_at_unix_secs: 1,
        pull_request: None,
        archived: false,
    }
}

fn head(name: &str, oid: &str) -> LocalBranchHead {
    LocalBranchHead { branch_name: name.into(), head_oid: oid.into() }
}

fn config() -> DigConfig {
    DigConfig::new("main".into())
}

fn options(branch: &str, parent: &str) -> AdoptOptions {
    AdoptOptions { branch_name: Some(branch.into()), parent_branch_name: parent.into() }
}

fn auth_state() -> DigState {
    DigState { version: DIG_STATE_VERSION, nodes: vec![node(1, "feat/auth", ParentRef::Trunk)] }
}

#[test]
fn rejects_tracked_branch_adoption() {
    let facts = RepoFacts { heads: vec![head("main", "m1"), head("feat/auth", "a1")], merge_bases: vec![] };
    let error = plan(&options("feat/auth", "main"), "feat/auth", &auth_state(), &config(), &facts).unwrap_err();

    assert_eq!(error.kind(), ErrorKind::AlreadyExists);
    assert_eq!(error.to_string(), "branch 'feat/auth' is already tracked by dig");
}

#[test]
fn rejects_adopting_trunk_branch() {
    let facts = RepoFacts { heads: vec![head("main", "m1")], merge_bases: vec![] };
    let error = plan(&options("main", "main"), "main", &DigState::empty(), &config(), &facts).unwrap_err();

    assert_eq!(error.kind(), ErrorKind::InvalidInput);
    assert_eq!(error.to_string(), "cannot adopt trunk branch 'main'");
}

#[test]
fn rejects_untracked_parent_branch() {
    let facts = RepoFacts { heads: vec![head("main", "m1"), head("feat/child", "c1")], merge_bases: vec![] };
    let error = plan(&options("feat/child", "feat/parent"), "main", &DigState::empty(), &config(), &facts).unwrap_err();

    assert_eq!(error.kind(), ErrorKind::NotFound);
    assert_eq!(error.to_string(), "parent branch 'feat/parent' does not exist");
}

fn sibling_facts() -> RepoFacts {
    RepoFacts {
        heads: vec![head("main", "m1"), head("feat/auth", "a1"), head("feat/auth-ui", "u1")],
        merge_bases: vec![MergeBaseFact { left: "feat/auth".into(), right: "feat/auth-ui".into(), oid: "m1".into() }],
    }
}

#[test]
fn plans_rebase_for_sibling_branch_adoption() {
    let plan = plan(&options("feat/auth-ui", "feat/auth"), "feat/auth", &auth_state(), &config(), &sibling_facts())
        .unwrap();

    assert!(plan.requires_rebase);
    assert_eq!(plan.original_branch, "feat/auth");
    assert_eq!(plan.branch_name, "feat/auth-ui");
    assert_eq!(plan.parent_branch_name, "feat/auth");
    assert_eq!(plan.parent, ParentRef::Branch { node_id: 1 });
    assert_eq!(plan.old_upstream_oid, "m1");
}

#[test]
fn adopt_needs_no_rebase_when_already_on_parent_head() {
    let mut facts = sibling_facts();
    facts.merge_bases[0].oid = "a1".into();
    let plan = plan(&options("feat/auth-ui", "feat/auth"), "feat/auth", &auth_state(), &config(), &facts).unwrap();
    assert!(!plan.requires_rebase);
}

#[test]
fn adopt_rechecks_store_and_builds_rebase_and_entry() {
    let plan = plan(&options("feat/auth-ui", "feat/auth"), "feat/auth", &auth_state(), &config(), &sibling_facts())
        .unwrap();
    assert!(recheck_before_apply(&plan, &auth_state(), &config()).is_ok());

    let mut tracked_meanwhile = auth_state();
    tracked_meanwhile.nodes.push(node(2, "feat/auth-ui", ParentRef::Trunk));
    let error = recheck_before_apply(&plan, &tracked_meanwhile, &config()).unwrap_err();
    assert_eq!(error.kind(), ErrorKind::AlreadyExists);

    let mut moved = auth_state();
    moved.nodes[0].archived = true;
    moved.nodes.push(node(3, "feat/auth", ParentRef::Trunk));
    let error = recheck_before_apply(&plan, &moved, &config()).unwrap_err();
    assert_eq!(error.to_string(), "tracked parent for 'feat/auth' changed while planning adopt");

    let action = adopt_rebase_action(&plan);
    assert_eq!(action.node_id, 0);
    assert_eq!(action.old_upstream_oid, "m1");
    assert_eq!(action.new_base.branch_name, "feat/auth");
    assert_eq!(action.new_parent, None);

    let entry = adopted_node("feat/auth-ui", "feat/auth", plan.parent, 9, "a1", "u2", 77);
    assert_eq!(entry.parent, ParentRef::Branch { node_id: 1 });
    assert_eq!(entry.base_ref, "feat/auth");
    assert_eq!(entry.fork_point_oid, "a1");
    assert_eq!(entry.head_oid_at_creation, "u2");
    assert_eq!(entry.created_at_unix_secs, 77);
    assert!(!entry.archived);

    assert_eq!(restore_failure_message("feat/auth"), "adopt completed, but failed to return to 'feat/auth'");
}
