use dig_stack::deleted_local::{
    collect_deleted_local_steps, collect_deleted_local_subtree_steps, copy_state, next_deleted_local_step,
    plan_deleted_local_step_for_branch, resolve_replacement_parent, scoped_node_ids, simulate_deleted_local_step,
    DeletedLocalScope,
};
use dig_stack::error::ErrorKind;
use dig_stack::model::{BranchNode, DigState, ParentRef, DIG_STATE_VERSION};
use dig_stack::restack::{LocalBranchHead, MergeBaseFact, RepoFacts};

fn node(id: u128, name: &str, parent: ParentRef) -> BranchNode {
    BranchNode {
        id,
        branch_name: name.into(),
        parent,
        base_ref: "main".into(),
        fork_point_oid: "f".into(),
        head_oid_at_creation: "f".into(),
        created_at_unix_secs: 1,
        pull_request: None,
        archived: false,
    }
}

fn head(name: &str) -> LocalBranchHead {
    LocalBranchHead { branch_name: name.into(), head_oid: format!("{}-head", name) }
}

fn base(left: &str, right: &str, oid: &str) -> MergeBaseFact {
    MergeBaseFact { left: left.into(), right: right.into(), oid: oid.into() }
}

// main <- auth(1) <- api(2) <- tests(3); auth and api are gone locally.
fn state() -> DigState {
    DigState {
        version: DIG_STATE_VERSION,
        nodes: vec![
            node(1, "feat/auth", ParentRef::Trunk),
            node(2, "feat/api", ParentRef::Branch { node_id: 1 }),
            node(3, "feat/tests", ParentRef::Branch { node_id: 2 }),
        ],
    }
}

fn facts() -> RepoFacts {
    RepoFacts {
        heads: vec![head("main"), head("feat/tests")],
        merge_bases: vec![base("main", "feat/tests", "mb")],
    }
}

#[test]
fn replacement_parent_skips_branches_missing_locally() {
    let state = state();
    let (target, parent) = resolve_replacement_parent(&state, "main", &ParentRef::Branch { node_id: 2 }, &facts()).unwrap();
    assert_eq!(target.branch_name, "main");
    assert_eq!(parent, ParentRef::Trunk);

    let mut with_auth = facts();
    with_auth.heads.push(head("feat/auth"));
    let (target, parent) =
        resolve_replacement_parent(&state, "main", &ParentRef::Branch { node_id: 2 }, &with_auth).unwrap();
    assert_eq!(target.branch_name, "feat/auth");
    assert_eq!(parent, ParentRef::Branch { node_id: 1 });

    let err = resolve_replacement_parent(&state, "main", &ParentRef::Branch { node_id: 99 }, &facts()).unwrap_err();
    assert_eq!(err.message, "tracked parent branch was not found");
}

#[test]
fn replacement_parent_walk_stops_on_a_cycle() {
    let cyclic = DigState {
        version: DIG_STATE_VERSION,
        nodes: vec![node(1, "a", ParentRef::Branch { node_id: 2 }), node(2, "b", ParentRef::Branch { node_id: 1 })],
    };
    let err = resolve_replacement_parent(&cyclic, "main", &ParentRef::Branch { node_id: 1 }, &facts()).unwrap_err();
    assert_eq!(err.kind, ErrorKind::InvalidData);
    assert_eq!(err.message, "tracked branches form a parent cycle");
}

#[test]
fn refuses_untracked_branch_step() {
    let err = plan_deleted_local_step_for_branch(&state(), "main", "feat/unknown", &facts()).unwrap_err();
    assert_eq!(err.kind, ErrorKind::NotFound);
    assert_eq!(err.message, "tracked branch 'feat/unknown' was not found");
}

#[test]
fn scopes_to_all_active_branches_or_a_subtree() {
    let mut s = state();
    assert_eq!(scoped_node_ids(&s, DeletedLocalScope::All), vec![1, 2, 3]);
    assert_eq!(scoped_node_ids(&s, DeletedLocalScope::Subtree { root_node_id: 2 }), vec![2, 3]);
    assert!(scoped_node_ids(&s, DeletedLocalScope::Subtree { root_node_id: 9 }).is_empty());
    s.nodes[0].archived = true;
    assert_eq!(scoped_node_ids(&s, DeletedLocalScope::All), vec![2, 3]);
}

#[test]
fn next_step_is_the_deepest_missing_branch() {
    let state = state();
    let step = next_deleted_local_step(&state, "main", &facts()).unwrap().unwrap();
    assert_eq!(step.branch_name, "feat/api");
    assert_eq!(step.depth, 1);
    assert_eq!(step.new_parent, ParentRef::Trunk);
    assert_eq!(step.new_parent_base.branch_name, "main");
    assert_eq!(step.restack_plan.len(), 1);
    assert_eq!(step.restack_plan[0].branch_name, "feat/tests");
    assert_eq!(step.restack_plan[0].onto_branch, "main");
    assert_eq!(step.tree.children.len(), 1);

    let everything_here = RepoFacts {
        heads: vec![head("main"), head("feat/auth"), head("feat/api"), head("feat/tests")],
        merge_bases: vec![],
    };
    assert!(next_deleted_local_step(&state, "main", &everything_here).unwrap().is_none());
}

#[test]
fn simulating_a_step_moves_children_and_archives_the_branch() {
    let original = state();
    let mut simulated = copy_state(&original);
    let step = next_deleted_local_step(&original, "main", &facts()).unwrap().unwrap();
    simulate_deleted_local_step(&mut simulated, &step, &facts()).unwrap();
    assert!(simulated.nodes[1].archived);
    assert_eq!(simulated.nodes[2].parent, ParentRef::Trunk);
    assert_eq!(simulated.nodes[2].base_ref, "main");
    assert!(!original.nodes[1].archived);
}

#[test]
fn collects_steps_deepest_first_until_none_is_missing() {
    let steps = collect_deleted_local_steps(&state(), "main", &facts()).unwrap();
    let names: Vec<&str> = steps.iter().map(|s| s.branch_name.as_str()).collect();
    assert_eq!(names, vec!["feat/api", "feat/auth"]);
    assert!(steps[1].restack_plan.is_empty());

    let subtree = collect_deleted_local_subtree_steps(&state(), "main", 2, &facts()).unwrap();
    assert_eq!(subtree.len(), 1);
    assert_eq!(subtree[0].branch_name, "feat/api");
}
