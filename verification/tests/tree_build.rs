use dig_stack::error::ErrorKind;
use dig_stack::model::{BranchNode, DigState, ParentRef, TrackedPullRequest, DIG_STATE_VERSION};
use dig_stack::tree_build::build_tree_view;
use dig_stack::tree_view::{render_stack_tree, TreeNode};

fn node(id: u128, name: &str, parent: ParentRef, pr: Option<u64>) -> BranchNode {
    BranchNode {
        id,
        branch_name: name.into(),
        parent,
        base_ref: "main".into(),
        fork_point_oid: "f".into(),
        head_oid_at_creation: "f".into(),
        created_at_unix_secs: 1,
        pull_request: pr.map(|number| TrackedPullRequest { number }),
        archived: false,
    }
}

// main <- feat/auth(1, #12) <- feat/auth-api(2); main <- feat/billing(3)
fn state() -> DigState {
    DigState {
        version: DIG_STATE_VERSION,
        nodes: vec![
            node(1, "feat/auth", ParentRef::Trunk, Some(12)),
            node(2, "feat/auth-api", ParentRef::Branch { node_id: 1 }, None),
            node(3, "feat/billing", ParentRef::Trunk, None),
        ],
    }
}

fn names(ns: &[TreeNode]) -> Vec<String> {
    ns.iter().map(|n| n.branch_name.clone()).collect()
}

#[test]
fn builds_every_stack_under_trunk_with_current_branch_marked() {
    let view = build_tree_view(&state(), "main", None, Some("feat/auth-api")).unwrap();
    let root = view.root_label.as_ref().unwrap();
    assert_eq!(root.branch_name, "main");
    assert!(!root.is_current);
    assert_eq!(names(&view.roots), vec!["feat/auth".to_string(), "feat/billing".to_string()]);
    assert_eq!(view.roots[0].pull_request_number, Some(12));
    assert!(!view.roots[0].is_current);
    assert_eq!(names(&view.roots[0].children), vec!["feat/auth-api".to_string()]);
    assert!(view.roots[0].children[0].is_current);
    assert!(view.is_current_visible);
    assert_eq!(view.current_branch_suffix, None);
}

#[test]
fn builds_one_stack_and_reports_current_branch_outside_it() {
    let view = build_tree_view(&state(), "main", Some("feat/auth"), Some("feat/billing")).unwrap();
    assert_eq!(view.root_label.as_ref().unwrap().branch_name, "feat/auth");
    assert_eq!(view.root_label.as_ref().unwrap().pull_request_number, Some(12));
    assert_eq!(names(&view.roots), vec!["feat/auth-api".to_string()]);
    assert!(!view.is_current_visible);
    assert_eq!(view.current_branch_name.as_deref(), Some("feat/billing"));
    assert_eq!(view.current_branch_suffix, None);
}

#[test]
fn marks_an_untracked_checked_out_branch_as_orphaned() {
    let view = build_tree_view(&state(), "main", Some("main"), Some("scratch")).unwrap();
    assert_eq!(view.root_label.as_ref().unwrap().branch_name, "main");
    assert!(!view.is_current_visible);
    assert_eq!(view.current_branch_suffix.as_deref(), Some("(orphaned)"));
    let rendered = render_stack_tree(&view);
    assert!(rendered.ends_with("scratch (orphaned)\u{1b}[0m"));

    let on_trunk = build_tree_view(&state(), "main", None, Some("main")).unwrap();
    assert!(on_trunk.is_current_visible);
    assert!(on_trunk.root_label.unwrap().is_current);
    assert_eq!(on_trunk.current_branch_suffix, None);

    let detached = build_tree_view(&state(), "main", None, None).unwrap();
    assert!(!detached.is_current_visible);
    assert_eq!(detached.current_branch_name, None);
}

#[test]
fn refuses_an_untracked_focus_and_a_cycle() {
    let error = build_tree_view(&state(), "main", Some("scratch"), None).unwrap_err();
    assert_eq!(error.kind, ErrorKind::Other);
    assert_eq!(error.message, "branch 'scratch' is not tracked by dig");

    let cyclic = DigState {
        version: DIG_STATE_VERSION,
        nodes: vec![
            node(1, "a", ParentRef::Branch { node_id: 2 }, None),
            node(2, "b", ParentRef::Branch { node_id: 1 }, None),
        ],
    };
    let error = build_tree_view(&cyclic, "main", Some("a"), None).unwrap_err();
    assert_eq!(error.kind, ErrorKind::InvalidData);
    assert!(error.message.starts_with("cycle detected in branch tree at node "));
}
