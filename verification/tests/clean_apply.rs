use dig_stack::clean_apply::{
    pending_candidates, restack_actions_for_candidate, CleanApplyOutcome, CleanPhase, CleanRun, CleanRunEvent,
    CleanStep, RunStatus,
};
use dig_stack::clean_plan::{plan as clean_plan, CleanFacts, IntegrationFact};
use dig_stack::clean_types::CleanOptions;
use dig_stack::clean_render::format_clean_success_output;
use dig_stack::model::{BranchNode, DigState, ParentRef, DIG_STATE_VERSION};
use dig_stack::pending::{PendingCleanCandidate, PendingCleanCandidateKind, PendingCleanOperation};
use dig_stack::restack::{finalize_action, LocalBranchHead, MergeBaseFact, RepoFacts, RestackPreview};

fn candidate(name: &str, kind: PendingCleanCandidateKind) -> PendingCleanCandidate {
    PendingCleanCandidate { branch_name: name.into(), kind }
}

fn preview(branch: &str, onto: &str) -> RestackPreview {
    RestackPreview { branch_name: branch.into(), onto_branch: onto.into(), parent_changed: true }
}

fn ok() -> RunStatus {
    RunStatus::succeeded()
}

fn failed(code: i32) -> RunStatus {
    RunStatus { success: false, code: Some(code) }
}

fn finish(run: &CleanRun) -> CleanApplyOutcome {
    match run.next_step() {
        CleanStep::Finish { outcome } => outcome,
        other => panic!("expected the run to be over, got {:?}", other),
    }
}

#[test]
fn cleanup_without_candidates_is_done_at_once() {
    let run = CleanRun::start("main", "feat/auth", vec![], true);
    let outcome = finish(&run);
    assert!(outcome.status.success);
    assert!(outcome.deleted_branches.is_empty());
    assert!(outcome.switched_to_trunk_from.is_none());
}

#[test]
fn cleanup_run_switches_removes_each_candidate_and_returns() {
    let mut run = CleanRun::start(
        "main",
        "feat/auth",
        vec![
            candidate("feat/gone", PendingCleanCandidateKind::DeletedLocally),
            candidate("feat/auth", PendingCleanCandidateKind::IntegratedIntoParent),
        ],
        true,
    );

    match run.next_step() {
        CleanStep::SwitchToTrunk { from_branch, to_branch } => {
            assert_eq!(from_branch, "feat/auth");
            assert_eq!(to_branch, "main");
        },
        other => panic!("unexpected step {:?}", other),
    }
    run.advance(CleanRunEvent::Switched { status: ok(), switched_from: Some("feat/auth".into()) });

    match run.next_step() {
        CleanStep::Restack { operation } => {
            assert_eq!(operation.current_candidate.branch_name, "feat/gone");
            assert_eq!(operation.remaining_candidates.len(), 1);
            assert_eq!(operation.remaining_candidates[0].branch_name, "feat/auth");
            assert_eq!(operation.switched_to_trunk_from.as_deref(), Some("feat/auth"));
        },
        other => panic!("unexpected step {:?}", other),
    }
    run.advance(CleanRunEvent::Restacked {
        status: ok(),
        paused: false,
        restacked: vec![preview("feat/child", "main")],
        failure_output: None,
    });
    match run.next_step() {
        CleanStep::Complete { candidate } => assert_eq!(candidate.branch_name, "feat/gone"),
        other => panic!("unexpected step {:?}", other),
    }
    run.advance(CleanRunEvent::Completed { status: ok() });

    match run.next_step() {
        CleanStep::Restack { operation } => {
            assert_eq!(operation.current_candidate.branch_name, "feat/auth");
            assert!(operation.remaining_candidates.is_empty());
            assert_eq!(operation.untracked_branches, vec!["feat/gone".to_string()]);
            assert_eq!(operation.restacked_branches.len(), 1);
        },
        other => panic!("unexpected step {:?}", other),
    }
    run.advance(CleanRunEvent::Restacked { status: ok(), paused: false, restacked: vec![], failure_output: None });
    run.advance(CleanRunEvent::Completed { status: ok() });

    assert!(matches!(run.next_step(), CleanStep::CheckoutTrunk { .. }));
    run.advance(CleanRunEvent::CheckedOut { status: ok(), switched_from: None });
    match run.next_step() {
        CleanStep::RestoreOriginal { original_branch } => assert_eq!(original_branch, "feat/auth"),
        other => panic!("unexpected step {:?}", other),
    }
    run.advance(CleanRunEvent::Restored { status: ok(), restored: Some("feat/auth".into()) });

    let outcome = finish(&run);
    assert!(outcome.status.success);
    assert_eq!(outcome.switched_to_trunk_from.as_deref(), Some("feat/auth"));
    assert_eq!(outcome.restored_original_branch.as_deref(), Some("feat/auth"));
    assert_eq!(outcome.untracked_branches, vec!["feat/gone".to_string()]);
    assert_eq!(outcome.deleted_branches, vec!["feat/auth".to_string()]);
    assert_eq!(outcome.restacked_branches, vec![preview("feat/child", "main")]);
    assert!(!outcome.paused);
}

#[test]
fn cleanup_run_stops_when_the_switch_to_trunk_fails() {
    let mut run =
        CleanRun::start("main", "feat/auth", vec![candidate("feat/auth", PendingCleanCandidateKind::IntegratedIntoParent)], true);
    run.advance(CleanRunEvent::Switched { status: failed(1), switched_from: None });
    let outcome = finish(&run);
    assert!(!outcome.status.success);
    assert_eq!(outcome.status.code, Some(1));
    assert!(outcome.switched_to_trunk_from.is_none());
}

#[test]
fn cleanup_run_pauses_with_the_rebases_done_so_far() {
    let mut run =
        CleanRun::start("main", "main", vec![candidate("feat/auth", PendingCleanCandidateKind::IntegratedIntoParent)], true);
    assert!(matches!(run.next_step(), CleanStep::Restack { .. }));
    run.advance(CleanRunEvent::Restacked {
        status: failed(1),
        paused: true,
        restacked: vec![preview("feat/a", "main")],
        failure_output: Some("conflict".into()),
    });
    let outcome = finish(&run);
    assert!(outcome.paused);
    assert!(!outcome.status.success);
    assert_eq!(outcome.failure_output.as_deref(), Some("conflict"));
    assert_eq!(outcome.restacked_branches, vec![preview("feat/a", "main")]);
    assert!(outcome.deleted_branches.is_empty());
}

#[test]
fn cleanup_run_stops_when_a_branch_cannot_be_deleted() {
    let mut run = CleanRun::start(
        "main",
        "main",
        vec![
            candidate("feat/a", PendingCleanCandidateKind::IntegratedIntoParent),
            candidate("feat/b", PendingCleanCandidateKind::IntegratedIntoParent),
        ],
        false,
    );
    run.advance(CleanRunEvent::Restacked { status: ok(), paused: false, restacked: vec![], failure_output: None });
    run.advance(CleanRunEvent::Completed { status: failed(128) });
    let outcome = finish(&run);
    assert_eq!(outcome.status, failed(128));
    assert!(outcome.deleted_branches.is_empty());
}

#[test]
fn cleanup_run_ignores_an_event_it_does_not_wait_for() {
    let mut run =
        CleanRun::start("main", "main", vec![candidate("feat/a", PendingCleanCandidateKind::DeletedLocally)], false);
    run.advance(CleanRunEvent::Completed { status: ok() });
    assert_eq!(run.phase, CleanPhase::Restacking);
    assert!(run.untracked_branches.is_empty());
}

#[test]
fn cleanup_run_returns_to_trunk_it_left_during_cleanup() {
    let mut run =
        CleanRun::start("main", "main", vec![candidate("feat/a", PendingCleanCandidateKind::DeletedLocally)], false);
    run.advance(CleanRunEvent::Restacked { status: ok(), paused: false, restacked: vec![], failure_output: None });
    run.advance(CleanRunEvent::Completed { status: failed(3) });
    run.advance(CleanRunEvent::CheckedOut { status: ok(), switched_from: Some("feat/x".into()) });
    run.advance(CleanRunEvent::Restored { status: ok(), restored: None });
    let outcome = finish(&run);
    assert!(outcome.status.success);
    assert_eq!(outcome.untracked_branches, vec!["feat/a".to_string()]);
    assert_eq!(outcome.restored_original_branch.as_deref(), Some("main"));
}

#[test]
fn resumed_cleanup_goes_on_with_the_remaining_candidates() {
    let mut run = CleanRun::resume(PendingCleanOperation {
        trunk_branch: "main".into(),
        original_branch: "main".into(),
        switched_to_trunk_from: None,
        current_candidate: candidate("feat/a", PendingCleanCandidateKind::IntegratedIntoParent),
        remaining_candidates: vec![candidate("feat/b", PendingCleanCandidateKind::DeletedLocally)],
        untracked_branches: vec![],
        deleted_branches: vec!["feat/z".into()],
        restacked_branches: vec![preview("feat/c", "main")],
    });
    run.advance(CleanRunEvent::Restacked {
        status: ok(),
        paused: false,
        restacked: vec![preview("feat/d", "main")],
        failure_output: None,
    });
    run.advance(CleanRunEvent::Completed { status: ok() });
    match run.next_step() {
        CleanStep::Restack { operation } => assert_eq!(operation.current_candidate.branch_name, "feat/b"),
        other => panic!("unexpected step {:?}", other),
    }
    run.advance(CleanRunEvent::Restacked { status: ok(), paused: false, restacked: vec![], failure_output: None });
    run.advance(CleanRunEvent::Completed { status: ok() });
    run.advance(CleanRunEvent::CheckedOut { status: ok(), switched_from: None });
    run.advance(CleanRunEvent::Restored { status: ok(), restored: None });
    let outcome = finish(&run);
    assert_eq!(outcome.deleted_branches, vec!["feat/z".to_string(), "feat/a".to_string()]);
    assert_eq!(outcome.untracked_branches, vec!["feat/b".to_string()]);
    assert_eq!(outcome.restacked_branches, vec![preview("feat/c", "main"), preview("feat/d", "main")]);
    assert!(outcome.restored_original_branch.is_none());
}

#[test]
fn formats_clean_success_output_with_every_section() {
    let outcome = CleanApplyOutcome {
        status: ok(),
        switched_to_trunk_from: Some("feat/auth".into()),
        restored_original_branch: None,
        untracked_branches: vec!["feat/gone".into()],
        deleted_branches: vec!["feat/auth".into(), "feat/api".into()],
        restacked_branches: vec![preview("feat/child", "main")],
        failure_output: None,
        paused: false,
    };
    assert_eq!(
        format_clean_success_output("main", &outcome),
        "Switched from 'feat/auth' to 'main' before cleanup.\n\nRestacked:\n- feat/child onto main\n\nNo longer tracked by dig:\n- feat/gone\n\nDeleted:\n- feat/auth\n- feat/api"
    );

    let quiet = CleanApplyOutcome {
        status: ok(),
        switched_to_trunk_from: None,
        restored_original_branch: Some("feat/x".into()),
        untracked_branches: vec![],
        deleted_branches: vec!["feat/auth".into()],
        restacked_branches: vec![],
        failure_output: None,
        paused: false,
    };
    assert_eq!(
        format_clean_success_output("main", &quiet),
        "Returned to 'feat/x' after cleanup.\n\nDeleted:\n- feat/auth"
    );
}

fn node(id: u128, name: &str, parent: ParentRef) -> BranchNode {
    BranchNode {
        id,
        branch_name: name.into(),
        parent,
        base_ref: "main".into(),
        fork_point_oid: "f".into(),
        head_oid_at_creation: "f".into(),
        created_at_unix_secs: 1,
        pull_request: None,
        archived: false,
    }
}

fn head(name: &str) -> LocalBranchHead {
    LocalBranchHead { branch_name: name.into(), head_oid: format!("{}-head", name) }
}

#[test]
fn plans_the_rebases_of_each_kind_of_candidate() {
    let state = DigState {
        version: DIG_STATE_VERSION,
        nodes: vec![
            node(1, "feat/auth", ParentRef::Trunk),
            node(2, "feat/api", ParentRef::Branch { node_id: 1 }),
            node(3, "feat/ui", ParentRef::Branch { node_id: 2 }),
        ],
    };
    let facts = RepoFacts {
        heads: vec![head("main"), head("feat/auth"), head("feat/ui")],
        merge_bases: vec![MergeBaseFact { left: "feat/auth".into(), right: "feat/ui".into(), oid: "mb".into() }],
    };

    let mut all_local = facts.clone();
    all_local.heads.push(head("feat/api"));
    let merged = restack_actions_for_candidate(
        &state,
        "main",
        &all_local,
        &candidate("feat/api", PendingCleanCandidateKind::IntegratedIntoParent),
    )
    .unwrap();
    assert_eq!(merged.len(), 1);
    assert_eq!(merged[0].branch_name, "feat/ui");
    assert_eq!(merged[0].new_base.branch_name, "feat/auth");
    assert_eq!(merged[0].old_upstream_branch_name, "feat/api");
    assert_eq!(merged[0].new_parent, Some(ParentRef::Branch { node_id: 1 }));

    let gone = restack_actions_for_candidate(
        &state,
        "main",
        &facts,
        &candidate("feat/api", PendingCleanCandidateKind::DeletedLocally),
    )
    .unwrap();
    assert_eq!(gone.len(), 1);
    assert_eq!(gone[0].branch_name, "feat/ui");
    assert_eq!(gone[0].new_base.branch_name, "feat/auth");
    assert_eq!(gone[0].old_upstream_oid, "mb");
    assert_eq!(gone[0].new_parent, Some(ParentRef::Branch { node_id: 1 }));

    let unknown = restack_actions_for_candidate(
        &state,
        "main",
        &facts,
        &candidate("feat/nope", PendingCleanCandidateKind::DeletedLocally),
    )
    .unwrap_err();
    assert_eq!(unknown.message, "tracked branch 'feat/nope' was not found");
}

fn stack_node(id: u128, name: &str, parent: ParentRef, base_ref: &str) -> BranchNode {
    BranchNode { base_ref: base_ref.into(), ..node(id, name, parent) }
}

fn clean_facts(heads: Vec<LocalBranchHead>, integration: Vec<IntegrationFact>) -> CleanFacts {
    CleanFacts { repo: RepoFacts { heads, merge_bases: vec![] }, integration }
}

/// Carries a cleanup run through with every piece of outside work succeeding, applying the
/// planned rebases and removals to the store as the command does; `checkout_from` is the branch
/// the final checkout of trunk leaves.
fn run_cleanup(
    state: &mut DigState,
    facts: &RepoFacts,
    mut run: CleanRun,
    checkout_from: Option<&str>,
    restore_to: Option<&str>,
) -> CleanApplyOutcome {
    loop {
        let event = match run.next_step() {
            CleanStep::Finish { outcome } => return outcome,
            CleanStep::SwitchToTrunk { from_branch, .. } => {
                CleanRunEvent::Switched { status: ok(), switched_from: Some(from_branch) }
            },
            CleanStep::Restack { operation } => {
                let actions = restack_actions_for_candidate(state, "main", facts, &operation.current_candidate).unwrap();
                let mut restacked = Vec::new();
                for action in &actions {
                    finalize_action(state, action).unwrap();
                    restacked.push(RestackPreview {
                        branch_name: action.branch_name.clone(),
                        onto_branch: action.new_base.branch_name.clone(),
                        parent_changed: action.new_parent.is_some(),
                    });
                }
                CleanRunEvent::Restacked { status: ok(), paused: false, restacked, failure_output: None }
            },
            CleanStep::Complete { candidate } => {
                let id = state.find_branch_by_name(&candidate.branch_name).unwrap().id;
                state.archive_branch(id).unwrap();
                CleanRunEvent::Completed { status: ok() }
            },
            CleanStep::CheckoutTrunk { .. } => {
                CleanRunEvent::CheckedOut { status: ok(), switched_from: checkout_from.map(|b| b.to_string()) }
            },
            CleanStep::RestoreOriginal { .. } => {
                CleanRunEvent::Restored { status: ok(), restored: restore_to.map(|b| b.to_string()) }
            },
        };
        run.advance(event);
    }
}

#[test]
fn cleans_squash_merged_parent_and_restacks_descendants() {
    let mut state = DigState {
        version: DIG_STATE_VERSION,
        nodes: vec![
            stack_node(1, "feat/auth", ParentRef::Trunk, "main"),
            stack_node(2, "feat/auth-api", ParentRef::Branch { node_id: 1 }, "feat/auth"),
            stack_node(3, "feat/auth-api-tests", ParentRef::Branch { node_id: 2 }, "feat/auth-api"),
        ],
    };
    let facts = clean_facts(
        vec![head("main"), head("feat/auth"), head("feat/auth-api"), head("feat/auth-api-tests")],
        vec![IntegrationFact { parent_branch: "main".into(), branch_name: "feat/auth".into(), integrated: true }],
    );

    let plan = clean_plan(
        &CleanOptions { branch_name: Some("feat/auth".into()) },
        &state,
        "main",
        "feat/auth",
        &facts,
    )
    .unwrap();

    assert_eq!(plan.candidates.len(), 1);
    assert_eq!(plan.candidates[0].branch_name, "feat/auth");
    assert_eq!(
        plan.candidates[0]
            .restack_plan
            .iter()
            .map(|step| format!("{}->{}", step.branch_name, step.onto_branch))
            .collect::<Vec<_>>(),
        vec!["feat/auth-api->main".to_string(), "feat/auth-api-tests->feat/auth-api".to_string()]
    );

    let run = CleanRun::start("main", "feat/auth", pending_candidates(&plan), plan.targets_current_branch());
    let outcome = run_cleanup(&mut state, &facts.repo, run, None, None);

    assert!(outcome.status.success);
    assert_eq!(outcome.switched_to_trunk_from.as_deref(), Some("feat/auth"));
    assert_eq!(outcome.restored_original_branch, None);
    assert_eq!(outcome.deleted_branches, vec!["feat/auth".to_string()]);
    assert_eq!(
        outcome
            .restacked_branches
            .iter()
            .map(|step| format!("{}->{}", step.branch_name, step.onto_branch))
            .collect::<Vec<_>>(),
        vec!["feat/auth-api->main".to_string(), "feat/auth-api-tests->feat/auth-api".to_string()]
    );

    let restacked_child = state.find_branch_by_name("feat/auth-api").unwrap();
    let grandchild = state.find_branch_by_name("feat/auth-api-tests").unwrap();
    assert_eq!(restacked_child.parent, ParentRef::Trunk);
    assert_eq!(restacked_child.base_ref, "main");
    assert_eq!(grandchild.parent, ParentRef::Branch { node_id: restacked_child.id });
    assert_eq!(grandchild.base_ref, "feat/auth-api");
    assert!(state.nodes.iter().any(|node| node.branch_name == "feat/auth" && node.archived));
}

#[test]
fn returns_to_original_branch_after_cleaning_from_another_checkout() {
    let mut state = DigState {
        version: DIG_STATE_VERSION,
        nodes: vec![
            stack_node(1, "feat/auth", ParentRef::Trunk, "main"),
            stack_node(2, "feat/auth-api", ParentRef::Branch { node_id: 1 }, "feat/auth"),
        ],
    };
    let facts = clean_facts(
        vec![head("main"), head("feat/auth"), head("feat/auth-api")],
        vec![IntegrationFact { parent_branch: "main".into(), branch_name: "feat/auth".into(), integrated: true }],
    );
    let plan = clean_plan(&CleanOptions { branch_name: Some("feat/auth".into()) }, &state, "main", "main", &facts)
        .unwrap();

    let run = CleanRun::start("main", "main", pending_candidates(&plan), plan.targets_current_branch());
    // The rebase of feat/auth-api leaves it checked out, so the run checks trunk out again.
    let outcome = run_cleanup(&mut state, &facts.repo, run, Some("feat/auth-api"), None);

    assert!(outcome.status.success);
    assert_eq!(outcome.switched_to_trunk_from, None);
    assert_eq!(outcome.restored_original_branch.as_deref(), Some("main"));
    assert_eq!(outcome.deleted_branches, vec!["feat/auth".to_string()]);
}
