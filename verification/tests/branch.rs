use dig_stack::adopt::{plan, resolve_branch_name};
use dig_stack::branch::{plan_new_branch, resolve_parent_branch_name, resolve_parent_ref};
use dig_stack::error::ErrorKind;
use dig_stack::model::{BranchNode, DigConfig, DigState, ParentRef, DIG_STATE_VERSION};
use dig_stack::options::{AdoptOptions, BranchOptions};
use dig_stack::restack::{LocalBranchHead, MergeBaseFact, RepoFacts};

fn node(id: u128, name: &str) -> BranchNode {
    BranchNode {
        id,
        branch_name: name.into(),
        parent: ParentRef::Trunk,
        base_ref: "main".into(),
        fork_point_oid: "abc123".into(),
        head_oid_at_creation: "abc123".into(),
        created_at_unix_secs: 1,
        pull_request: None,
        archived: false,
    }
}

fn head(name: &str, oid: &str) -> LocalBranchHead {
    LocalBranchHead { branch_name: name.into(), head_oid: oid.into() }
}

fn state_with_base() -> DigState {
    DigState { version: DIG_STATE_VERSION, nodes: vec![node(7, "feature/base")] }
}

fn facts() -> RepoFacts {
    RepoFacts {
        heads: vec![head("main", "m1"), head("feature/base", "b1"), head("feat/side", "s1")],
        merge_bases: vec![
            MergeBaseFact { left: "feature/base".into(), right: "feat/side".into(), oid: "m1".into() },
            MergeBaseFact { left: "main".into(), right: "feat/side".into(), oid: "m1".into() },
        ],
    }
}

#[test]
fn preserves_requested_branch_name() {
    let options = BranchOptions { name: "feature/api".into(), parent_branch_name: None };

    assert_eq!(options.name, "feature/api");
}

#[test]
fn resolves_requested_trunk_parent() {
    let state = DigState::empty();
    let config = DigConfig::new("main".into());

    assert_eq!(resolve_parent_ref(&state, &config, "main").unwrap(), ParentRef::Trunk);
}

#[test]
fn resolves_requested_tracked_parent_branch() {
    let state = state_with_base();
    let config = DigConfig::new("main".into());

    assert_eq!(resolve_parent_ref(&state, &config, "feature/base").unwrap(), ParentRef::Branch { node_id: 7 });
    let err = resolve_parent_ref(&state, &config, "feature/other").unwrap_err();
    assert_eq!(err.kind, ErrorKind::NotFound);
    assert_eq!(err.message, "parent branch 'feature/other' is not tracked by dig and does not match trunk 'main'");
}

#[test]
fn resolves_parent_branch_name_override() {
    assert_eq!(resolve_parent_branch_name("feature/base", Some("main")).unwrap(), "main");
    assert_eq!(resolve_parent_branch_name(" feature/base ", None).unwrap(), "feature/base");
    let err = resolve_parent_branch_name("feature/base", Some("  ")).unwrap_err();
    assert_eq!(err.kind, ErrorKind::InvalidInput);
    assert_eq!(err.message, "parent branch name cannot be empty");
}

#[test]
fn resolves_requested_branch_or_current_branch() {
    assert_eq!(resolve_branch_name("feat/current", Some("feat/other")).unwrap(), "feat/other");
    assert_eq!(resolve_branch_name("feat/current", None).unwrap(), "feat/current");
    assert_eq!(resolve_branch_name("", None).unwrap_err().message, "branch name cannot be empty");
}

#[test]
fn plans_a_new_branch_on_its_parent_head() {
    let state = state_with_base();
    let config = DigConfig::new("main".into());
    let options = BranchOptions { name: " feature/api ".into(), parent_branch_name: None };
    let created = plan_new_branch(&options, "feature/base", &state, &config, &facts(), 42, 1000).unwrap();
    assert_eq!(created.id, 42);
    assert_eq!(created.branch_name, "feature/api");
    assert_eq!(created.parent, ParentRef::Branch { node_id: 7 });
    assert_eq!(created.base_ref, "feature/base");
    assert_eq!(created.fork_point_oid, "b1");
    assert_eq!(created.head_oid_at_creation, "b1");
    assert_eq!(created.created_at_unix_secs, 1000);
    assert!(created.pull_request.is_none());
    assert!(!created.archived);
}

#[test]
fn refuses_new_branches_that_break_a_rule() {
    let state = state_with_base();
    let config = DigConfig::new("main".into());
    let err = |name: &str, parent: Option<&str>| {
        plan_new_branch(
            &BranchOptions { name: name.into(), parent_branch_name: parent.map(|p| p.to_string()) },
            "main",
            &state,
            &config,
            &facts(),
            1,
            1,
        )
        .unwrap_err()
    };
    assert_eq!(err("  ", None).message, "branch name cannot be empty");
    assert_eq!(err("feat/side", None).message, "branch 'feat/side' already exists");
    assert_eq!(err("feat/new", Some("feat/new")).message, "branch cannot list itself as its parent");
    assert_eq!(err("feat/new", Some("feat/gone")).message, "parent branch 'feat/gone' does not exist");
    assert_eq!(err("feat/new", Some("feat/gone")).kind, ErrorKind::NotFound);
}

#[test]
fn plans_adopting_a_sibling_branch_with_rebase() {
    let state = state_with_base();
    let config = DigConfig::new("main".into());
    let adopt = plan(
        &AdoptOptions { branch_name: Some("feat/side".into()), parent_branch_name: "feature/base".into() },
        "main",
        &state,
        &config,
        &facts(),
    )
    .unwrap();
    assert_eq!(adopt.branch_name, "feat/side");
    assert_eq!(adopt.parent_branch_name, "feature/base");
    assert_eq!(adopt.parent, ParentRef::Branch { node_id: 7 });
    assert_eq!(adopt.old_upstream_oid, "m1");
    assert!(adopt.requires_rebase);
    assert_eq!(adopt.original_branch, "main");
    assert_eq!(adopt.trunk_branch, "main");

    let onto_trunk = plan(
        &AdoptOptions { branch_name: Some("feat/side".into()), parent_branch_name: "main".into() },
        "main",
        &state,
        &config,
        &facts(),
    )
    .unwrap();
    assert!(!onto_trunk.requires_rebase);
}

#[test]
fn rejects_adopting_trunk_or_tracked_branches() {
    let state = state_with_base();
    let config = DigConfig::new("main".into());
    let trunk = plan(
        &AdoptOptions { branch_name: None, parent_branch_name: "feature/base".into() },
        "main",
        &state,
        &config,
        &facts(),
    )
    .unwrap_err();
    assert_eq!(trunk.message, "cannot adopt trunk branch 'main'");
    let already_tracked = plan(
        &AdoptOptions { branch_name: Some("feature/base".into()), parent_branch_name: "main".into() },
        "main",
        &state,
        &config,
        &facts(),
    )
    .unwrap_err();
    assert_eq!(already_tracked.kind, ErrorKind::AlreadyExists);
    assert_eq!(already_tracked.message, "branch 'feature/base' is already tracked by dig");
    let untracked_parent = plan(
        &AdoptOptions { branch_name: Some("feat/side".into()), parent_branch_name: "feat/side".into() },
        "main",
        &state,
        &config,
        &facts(),
    )
    .unwrap_err();
    assert_eq!(untracked_parent.message, "branch cannot list itself as its parent");
}
