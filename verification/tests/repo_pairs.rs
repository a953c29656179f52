use dig_stack::model::{BranchNode, DigState, ParentRef, DIG_STATE_VERSION};
use dig_stack::repo_pairs::{
    ancestor_pairs, child_merge_base_pairs, pairs_with_local_heads, parse_local_heads, tracked_parent_pairs,
};
use dig_stack::restack::LocalBranchHead;

fn node(id: u128, name: &str, parent: ParentRef, archived: bool) -> BranchNode {
    BranchNode {
        id,
        branch_name: name.into(),
        parent,
        base_ref: "main".into(),
        fork_point_oid: "abc".into(),
        head_oid_at_creation: "abc".into(),
        created_at_unix_secs: 1,
        pull_request: None,
        archived,
    }
}

fn state() -> DigState {
    DigState {
        version: DIG_STATE_VERSION,
        nodes: vec![
            node(1, "feat/a", ParentRef::Trunk, false),
            node(2, "feat/b", ParentRef::Branch { node_id: 1 }, false),
            node(3, "feat/old", ParentRef::Branch { node_id: 1 }, true),
            node(4, "feat/c", ParentRef::Branch { node_id: 2 }, false),
            node(5, "feat/d", ParentRef::Branch { node_id: 1 }, false),
        ],
    }
}

fn pair(a: &str, b: &str) -> (String, String) {
    (a.to_string(), b.to_string())
}

#[test]
fn parses_local_heads_at_last_space() {
    let heads = parse_local_heads("main 111\nfeat/a 222\r\nbroken\n");
    assert_eq!(heads.len(), 2);
    assert_eq!(heads[0].branch_name, "main");
    assert_eq!(heads[0].head_oid, "111");
    assert_eq!(heads[1].branch_name, "feat/a");
    assert_eq!(heads[1].head_oid, "222");
}

#[test]
fn tracked_parent_pairs_skip_archived_branches() {
    assert_eq!(
        tracked_parent_pairs(&state(), "main"),
        vec![pair("main", "feat/a"), pair("feat/a", "feat/b"), pair("feat/b", "feat/c"), pair("feat/a", "feat/d")]
    );
}

#[test]
fn ancestor_pairs_walk_up_to_trunk() {
    assert_eq!(
        ancestor_pairs(&state(), "main"),
        vec![
            pair("main", "feat/a"),
            pair("feat/a", "feat/b"),
            pair("main", "feat/b"),
            pair("feat/b", "feat/c"),
            pair("feat/a", "feat/c"),
            pair("main", "feat/c"),
            pair("feat/a", "feat/d"),
            pair("main", "feat/d"),
        ]
    );
}

#[test]
fn ancestor_pairs_end_on_a_cycle() {
    let cyclic = DigState {
        version: DIG_STATE_VERSION,
        nodes: vec![node(1, "x", ParentRef::Branch { node_id: 2 }, false), node(2, "y", ParentRef::Branch { node_id: 1 }, false)],
    };
    let pairs = ancestor_pairs(&cyclic, "main");
    assert_eq!(pairs.len(), 6);
    assert_eq!(pairs[0], pair("y", "x"));
    assert_eq!(pairs[1], pair("x", "x"));
}

#[test]
fn child_pairs_list_active_children_onto_new_parent() {
    assert_eq!(child_merge_base_pairs(&state(), 1, "main"), vec![pair("main", "feat/b"), pair("main", "feat/d")]);
    assert!(child_merge_base_pairs(&state(), 4, "main").is_empty());
}

#[test]
fn keeps_pairs_whose_branches_exist_locally() {
    let heads = vec![
        LocalBranchHead { branch_name: "main".into(), head_oid: "1".into() },
        LocalBranchHead { branch_name: "feat/a".into(), head_oid: "2".into() },
    ];
    let pairs = vec![pair("main", "feat/a"), pair("feat/a", "feat/b")];
    assert_eq!(pairs_with_local_heads(&pairs, &heads), vec![pair("main", "feat/a")]);
}
