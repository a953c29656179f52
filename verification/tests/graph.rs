use dig_stack::error::ErrorKind;
use dig_stack::graph::{ensure_descendants_local, BranchGraph};
use dig_stack::model::{BranchNode, DigState, ParentRef, TrackedPullRequest, DIG_STATE_VERSION};
use dig_stack::restack::LocalBranchHead;

const PARENT: u128 = 0x1111;
const CHILD: u128 = 0x2222;
const GRANDCHILD: u128 = 0x3333;

fn node(id: u128, name: &str, parent: ParentRef, base: &str, pr: Option<u64>) -> BranchNode {
    BranchNode {
        id,
        branch_name: name.into(),
        parent,
        base_ref: base.into(),
        fork_point_oid: "abc123".into(),
        head_oid_at_creation: "abc123".into(),
        created_at_unix_secs: 1,
        pull_request: pr.map(|number| TrackedPullRequest { number }),
        archived: false,
    }
}

fn fixture_state() -> DigState {
    DigState {
        version: DIG_STATE_VERSION,
        nodes: vec![
            node(PARENT, "feature/api", ParentRef::Trunk, "main", Some(42)),
            node(CHILD, "feature/api-followup", ParentRef::Branch { node_id: PARENT }, "feature/api", None),
            node(GRANDCHILD, "feature/api-tests", ParentRef::Branch { node_id: CHILD }, "feature/api-followup", None),
        ],
    }
}

const A: u128 = 0xaaaa;
const B: u128 = 0xbbbb;

fn fixture_cycle_state() -> DigState {
    DigState {
        version: DIG_STATE_VERSION,
        nodes: vec![
            node(A, "branch-a", ParentRef::Branch { node_id: B }, "branch-b", None),
            node(B, "branch-b", ParentRef::Branch { node_id: A }, "branch-a", None),
        ],
    }
}

#[test]
fn builds_branch_lineage_from_child_to_trunk() {
    let state = fixture_state();
    let graph = BranchGraph::new(&state);

    let lineage = graph.lineage("feature/api-followup", "main");
    let entries: Vec<(String, Option<u64>)> =
        lineage.iter().map(|n| (n.branch_name.clone(), n.pull_request_number)).collect();
    assert_eq!(
        entries,
        vec![
            ("feature/api-followup".to_string(), None),
            ("feature/api".to_string(), Some(42)),
            ("main".to_string(), None),
        ]
    );
}

#[test]
fn lineage_of_untracked_branch_is_the_branch_alone() {
    let state = fixture_state();
    let lineage = BranchGraph::new(&state).lineage("scratch", "main");
    assert_eq!(lineage.len(), 1);
    assert_eq!(lineage[0].branch_name, "scratch");
}

#[test]
fn tracks_active_descendants_and_depth() {
    let state = fixture_state();
    let graph = BranchGraph::new(&state);

    assert_eq!(graph.active_children_ids(PARENT), vec![CHILD]);
    assert_eq!(graph.active_descendant_ids(PARENT), vec![CHILD, GRANDCHILD]);
    assert_eq!(graph.branch_depth(GRANDCHILD), 2);
    assert_eq!(graph.branch_depth(PARENT), 0);
}

#[test]
fn builds_branch_subtree() {
    let state = fixture_state();
    let graph = BranchGraph::new(&state);

    let tree = graph.subtree(PARENT).unwrap();
    assert_eq!(tree.branch_name, "feature/api");
    assert_eq!(tree.children.len(), 1);
    assert_eq!(tree.children[0].branch_name, "feature/api-followup");
    assert_eq!(tree.children[0].children.len(), 1);
    assert_eq!(tree.children[0].children[0].branch_name, "feature/api-tests");
    assert!(tree.children[0].children[0].children.is_empty());
}

#[test]
fn lineage_terminates_on_cycle() {
    let state = fixture_cycle_state();
    let graph = BranchGraph::new(&state);

    let result = graph.lineage("branch-a", "main");

    assert_eq!(result.len(), 2);
    assert_eq!(result[0].branch_name, "branch-a");
    assert_eq!(result[1].branch_name, "branch-b");
}

#[test]
fn branch_depth_terminates_on_cycle() {
    let state = fixture_cycle_state();
    let graph = BranchGraph::new(&state);

    assert_eq!(graph.branch_depth(A), 1);
}

#[test]
fn active_descendant_ids_terminates_on_cycle() {
    let state = DigState {
        version: DIG_STATE_VERSION,
        nodes: vec![
            node(A, "cycle-a", ParentRef::Branch { node_id: 0xcccc }, "cycle-c", None),
            node(0xcccc, "cycle-c", ParentRef::Branch { node_id: A }, "cycle-a", None),
        ],
    };
    let graph = BranchGraph::new(&state);

    let descendants = graph.active_descendant_ids(A);
    assert_eq!(descendants.len(), 1);
    assert_eq!(descendants[0], 0xcccc);
}

#[test]
fn subtree_returns_error_on_cycle() {
    let state = fixture_cycle_state();
    let graph = BranchGraph::new(&state);

    let err = graph.subtree(A).unwrap_err();
    assert_eq!(err.kind(), ErrorKind::InvalidData);
    assert!(err.to_string().contains("cycle detected"));
    assert_eq!(
        err.message,
        "cycle detected in branch tree at node 00000000-0000-0000-0000-00000000aaaa (branch: branch-a)"
    );
}

#[test]
fn finds_parent_branch_names() {
    let state = fixture_state();
    let graph = BranchGraph::new(&state);
    assert_eq!(graph.parent_branch_name(&state.nodes[0], "main").as_deref(), Some("main"));
    assert_eq!(graph.parent_branch_name(&state.nodes[2], "main").as_deref(), Some("feature/api-followup"));
    let lost = node(9, "lost", ParentRef::Branch { node_id: 99 }, "x", None);
    assert_eq!(graph.parent_branch_name(&lost, "main"), None);
}

#[test]
fn blocks_merge_when_tracked_descendant_is_missing_locally() {
    let state = fixture_state();
    let graph = BranchGraph::new(&state);
    let heads = vec![
        LocalBranchHead { branch_name: "main".into(), head_oid: "m".into() },
        LocalBranchHead { branch_name: "feature/api".into(), head_oid: "a".into() },
        LocalBranchHead { branch_name: "feature/api-tests".into(), head_oid: "t".into() },
    ];

    let missing = graph.missing_local_descendants(PARENT, &heads);
    assert_eq!(missing, vec!["feature/api-followup"]);
    let error = ensure_descendants_local("feature/api", &missing).unwrap_err();

    assert!(error.to_string().contains("missing locally"));
    assert_eq!(error.kind, ErrorKind::NotFound);
    assert!(ensure_descendants_local("feature/api", &Vec::new()).is_ok());
}
