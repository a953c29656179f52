use dig_stack::clean_plan::{
    evaluate_branch, plan, plan_for_all_branches, plan_for_requested_branch, BranchEvaluation, CleanFacts,
    IntegrationFact,
};
use dig_stack::clean_render::{cleanup_prompt, format_blocked_branch, format_clean_plan};
use dig_stack::clean_rules::{
    branch_is_integrated, parent_commit_mentions_all_branch_commits, parent_commit_mentions_tracked_pull_request,
};
use dig_stack::clean_types::{
    BlockedBranch, CleanBlockReason, CleanCandidate, CleanOptions, CleanPlan, CleanReason, CleanTreeNode,
};
use dig_stack::error::ErrorKind;
use dig_stack::git::{CherryMarker, CommitMetadata};
use dig_stack::model::{BranchNode, DigState, ParentRef, DIG_STATE_VERSION};
use dig_stack::restack::{LocalBranchHead, RepoFacts, RestackPreview};

fn node(id: u128, name: &str, parent: ParentRef) -> BranchNode {
    BranchNode {
        id,
        branch_name: name.into(),
        parent,
        base_ref: "main".into(),
        fork_point_oid: "abc".into(),
        head_oid_at_creation: "abc".into(),
        created_at_unix_secs: 1,
        pull_request: None,
        archived: false,
    }
}

fn head(name: &str, oid: &str) -> LocalBranchHead {
    LocalBranchHead { branch_name: name.into(), head_oid: oid.into() }
}

fn integration(parent: &str, branch: &str, integrated: bool) -> IntegrationFact {
    IntegrationFact { parent_branch: parent.into(), branch_name: branch.into(), integrated }
}

fn stack_state() -> DigState {
    DigState {
        version: DIG_STATE_VERSION,
        nodes: vec![
            node(1, "feat/auth", ParentRef::Trunk),
            node(2, "feat/auth-api", ParentRef::Branch { node_id: 1 }),
            node(3, "feat/billing", ParentRef::Trunk),
        ],
    }
}

fn stack_facts(auth: bool, api: bool, billing: bool) -> CleanFacts {
    CleanFacts {
        repo: RepoFacts {
            heads: vec![
                head("main", "m1"),
                head("feat/auth", "a1"),
                head("feat/auth-api", "b1"),
                head("feat/billing", "c1"),
            ],
            merge_bases: vec![],
        },
        integration: vec![
            integration("main", "feat/auth", auth),
            integration("feat/auth", "feat/auth-api", api),
            integration("main", "feat/billing", billing),
        ],
    }
}

fn candidate(name: &str, reason: CleanReason, restack: Vec<RestackPreview>) -> CleanCandidate {
    CleanCandidate {
        node_id: 7,
        branch_name: name.into(),
        parent_branch_name: "main".into(),
        reason,
        tree: CleanTreeNode { branch_name: name.into(), children: vec![] },
        restack_plan: restack,
        depth: 0,
    }
}

#[test]
fn clean_reports_non_integrated_branch_reason() {
    let blocked = BlockedBranch {
        branch_name: "feat/auth".into(),
        reason: CleanBlockReason::NotIntegrated { parent_branch: "main".into() },
    };

    assert_eq!(blocked.reason, CleanBlockReason::NotIntegrated { parent_branch: "main".into() });
}

#[test]
fn tests_reports_non_integrated_branch_reason() {
    let blocked = BlockedBranch {
        branch_name: "feat/auth".into(),
        reason: CleanBlockReason::NotIntegrated { parent_branch: "main".into() },
    };

    assert_eq!(blocked.reason, CleanBlockReason::NotIntegrated { parent_branch: "main".into() });
}

#[test]
fn clean_tracks_integrated_clean_reason() {
    let reason = CleanReason::IntegratedIntoParent { parent_branch: "main".into() };

    assert_eq!(reason, CleanReason::IntegratedIntoParent { parent_branch: "main".into() });
}

fn squash_parent() -> CommitMetadata {
    CommitMetadata {
        sha: "parent".into(),
        subject: "feat: stacked branch creation".into(),
        body: "feat: stacked branch creation\n\ncommit 1de9e06d1174402332fdd5343a387249b0a5ef66\n    feat: new parent flag to specify the parent mannualy of a branch\n\ncommit 2099fdf424816e61eceff1a98db2d00fee0f76ac\n    feat: stacked-branches\n"
        .into(),
    }
}

fn squashed_branch_commits() -> Vec<CommitMetadata> {
    vec![
        CommitMetadata {
            sha: "2099fdf424816e61eceff1a98db2d00fee0f76ac".into(),
            subject: "feat: stacked-branches".into(),
            body: String::new(),
        },
        CommitMetadata {
            sha: "1de9e06d1174402332fdd5343a387249b0a5ef66".into(),
            subject: "feat: new parent flag to specify the parent mannualy of a branch".into(),
            body: String::new(),
        },
    ]
}

#[test]
fn clean_detects_squash_commit_message_that_mentions_branch_commits() {
    assert!(parent_commit_mentions_all_branch_commits(&squash_parent(), &squashed_branch_commits()));
}

#[test]
fn tests_detects_squash_commit_message_that_mentions_branch_commits() {
    assert!(parent_commit_mentions_all_branch_commits(&squash_parent(), &squashed_branch_commits()));
}

#[test]
fn detects_commits_by_subject_lines_when_hashes_are_absent() {
    let parent = CommitMetadata {
        sha: "p".into(),
        subject: "squash".into(),
        body: "squash\n\n  feat: one  \nfeat: two\n".into(),
    };
    let branch = vec![
        CommitMetadata { sha: "aaa".into(), subject: "feat: one".into(), body: String::new() },
        CommitMetadata { sha: "bbb".into(), subject: "feat: two".into(), body: String::new() },
    ];
    assert!(parent_commit_mentions_all_branch_commits(&parent, &branch));

    let missing = vec![CommitMetadata { sha: "ccc".into(), subject: "feat: three".into(), body: String::new() }];
    assert!(!parent_commit_mentions_all_branch_commits(&parent, &missing));
}

#[test]
fn detects_parent_commit_that_mentions_tracked_pull_request_number() {
    assert!(parent_commit_mentions_tracked_pull_request(
        &CommitMetadata {
            sha: "parent".into(),
            subject: "feat: add GitHub PR workflows (#2)".into(),
            body: "See https://github.com/acme/dig/pull/2 for details.".into(),
        },
        2,
    ));
    assert!(!parent_commit_mentions_tracked_pull_request(
        &CommitMetadata {
            sha: "parent".into(),
            subject: "feat: add GitHub PR workflows (#12)".into(),
            body: String::new(),
        },
        2,
    ));
}

#[test]
fn detects_pull_request_url_but_not_a_longer_number() {
    let by_url = CommitMetadata {
        sha: "p".into(),
        subject: "merge".into(),
        body: "https://github.com/acme/dig/pull/7".into(),
    };
    assert!(parent_commit_mentions_tracked_pull_request(&by_url, 7));
    let longer = CommitMetadata {
        sha: "p".into(),
        subject: "merge".into(),
        body: "https://github.com/acme/dig/pull/71".into(),
    };
    assert!(!parent_commit_mentions_tracked_pull_request(&longer, 7));
}

#[test]
fn branch_is_integrated_by_cherry_marks_or_commit_listing() {
    assert!(branch_is_integrated(&[CherryMarker::Equivalent, CherryMarker::Equivalent], &[], &[]));
    assert!(branch_is_integrated(&[], &[], &[]));
    assert!(branch_is_integrated(&[CherryMarker::Missing], &squashed_branch_commits(), &[squash_parent()]));
    assert!(!branch_is_integrated(&[CherryMarker::Missing], &squashed_branch_commits(), &[]));
}

#[test]
fn clean_formats_clean_plan_with_restack_preview() {
    let rendered = format_clean_plan(&CleanPlan {
        trunk_branch: "main".into(),
        current_branch: "feat/auth".into(),
        requested_branch_name: Some("feat/auth".into()),
        candidates: vec![CleanCandidate {
            node_id: 1,
            branch_name: "feat/auth".into(),
            parent_branch_name: "main".into(),
            reason: CleanReason::IntegratedIntoParent { parent_branch: "main".into() },
            tree: CleanTreeNode {
                branch_name: "feat/auth".into(),
                children: vec![CleanTreeNode { branch_name: "feat/auth-api".into(), children: vec![] }],
            },
            restack_plan: vec![RestackPreview {
                branch_name: "feat/auth-api".into(),
                onto_branch: "main".into(),
                parent_changed: true,
            }],
            depth: 0,
        }],
        blocked: Vec::new(),
    });

    assert_eq!(
        rendered,
        "Merged branches ready to clean:\n- feat/auth merged into main\n  restack feat/auth-api onto main\n\nWill switch from 'feat/auth' to 'main' before cleanup."
    );
}

#[test]
fn mod_formats_clean_plan_with_restack_preview() {
    let rendered = format_clean_plan(&CleanPlan {
        trunk_branch: "main".into(),
        current_branch: "feat/auth".into(),
        requested_branch_name: Some("feat/auth".into()),
        candidates: vec![CleanCandidate {
            node_id: 1,
            branch_name: "feat/auth".into(),
            parent_branch_name: "main".into(),
            reason: CleanReason::IntegratedIntoParent { parent_branch: "main".into() },
            tree: CleanTreeNode {
                branch_name: "feat/auth".into(),
                children: vec![CleanTreeNode { branch_name: "feat/auth-api".into(), children: vec![] }],
            },
            restack_plan: vec![RestackPreview {
                branch_name: "feat/auth-api".into(),
                onto_branch: "main".into(),
                parent_changed: true,
            }],
            depth: 0,
        }],
        blocked: Vec::new(),
    });

    assert_eq!(
        rendered,
        "Merged branches ready to clean:\n- feat/auth merged into main\n  restack feat/auth-api onto main\n\nWill switch from 'feat/auth' to 'main' before cleanup."
    );
}

#[test]
fn formats_clean_plan_with_deleted_local_section() {
    let rendered = format_clean_plan(&CleanPlan {
        trunk_branch: "main".into(),
        current_branch: "main".into(),
        requested_branch_name: None,
        candidates: vec![CleanCandidate {
            node_id: 1,
            branch_name: "feat/auth".into(),
            parent_branch_name: "main".into(),
            reason: CleanReason::DeletedLocally,
            tree: CleanTreeNode { branch_name: "feat/auth".into(), children: vec![] },
            restack_plan: vec![RestackPreview {
                branch_name: "feat/users".into(),
                onto_branch: "main".into(),
                parent_changed: true,
            }],
            depth: 0,
        }],
        blocked: Vec::new(),
    });

    assert_eq!(
        rendered,
        "Tracked branches missing locally and ready to stop tracking:\n- feat/auth no longer exists locally\n  restack feat/users onto main"
    );
}

#[test]
fn formats_both_sections_with_a_blank_line_between() {
    let rendered = format_clean_plan(&CleanPlan {
        trunk_branch: "main".into(),
        current_branch: "main".into(),
        requested_branch_name: None,
        candidates: vec![
            candidate("feat/a", CleanReason::IntegratedIntoParent { parent_branch: "main".into() }, vec![]),
            candidate("feat/b", CleanReason::DeletedLocally, vec![]),
        ],
        blocked: Vec::new(),
    });

    assert_eq!(
        rendered,
        "Tracked branches missing locally and ready to stop tracking:\n- feat/b no longer exists locally\n\nMerged branches ready to clean:\n- feat/a merged into main"
    );
}

#[test]
fn clean_formats_blocked_branch_reason() {
    let rendered = format_blocked_branch(&BlockedBranch {
        branch_name: "feat/auth".into(),
        reason: CleanBlockReason::NotIntegrated { parent_branch: "main".into() },
    });

    assert_eq!(rendered, "'feat/auth' is not fully integrated into 'main'.");
}

#[test]
fn mod_formats_blocked_branch_reason() {
    let rendered = format_blocked_branch(&BlockedBranch {
        branch_name: "feat/auth".into(),
        reason: CleanBlockReason::NotIntegrated { parent_branch: "main".into() },
    });

    assert_eq!(rendered, "'feat/auth' is not fully integrated into 'main'.");
}

#[test]
fn formats_every_blocked_reason() {
    let text = |reason: CleanBlockReason| format_blocked_branch(&BlockedBranch { branch_name: "feat/x".into(), reason });
    assert_eq!(text(CleanBlockReason::BranchNotTracked), "'feat/x' is not tracked by dig.");
    assert_eq!(
        text(CleanBlockReason::BranchMissingLocally),
        "'feat/x' is tracked by dig but no longer exists locally."
    );
    assert_eq!(
        text(CleanBlockReason::ParentMissingLocally { parent_branch: "feat/p".into() }),
        "'feat/x' cannot be cleaned because its parent 'feat/p' does not exist locally."
    );
    assert_eq!(
        text(CleanBlockReason::ParentMissingFromDig),
        "'feat/x' cannot be cleaned because its tracked parent is missing from dig."
    );
    assert_eq!(
        text(CleanBlockReason::DescendantsMissingLocally { branch_names: vec!["feat/a".into(), "feat/b".into()] }),
        "'feat/x' cannot be cleaned because tracked descendants are missing locally: feat/a, feat/b."
    );
}

#[test]
fn asks_to_confirm_cleanup_with_counts() {
    assert_eq!(cleanup_prompt(0, 1), "Delete 1 merged branch? [y/N] ");
    assert_eq!(cleanup_prompt(2, 0), "Stop tracking 2 missing branches? [y/N] ");
    assert_eq!(
        cleanup_prompt(1, 3),
        "Delete 3 merged branches and stop tracking 1 missing branch? [y/N] "
    );
}

#[test]
fn full_clean_plan_only_lists_deepest_cleanable_branches() {
    let state = stack_state();
    let facts = stack_facts(true, true, true);
    let plan = plan_for_all_branches(&state, "main", "main", &facts).unwrap();

    let names: Vec<&str> = plan.candidates.iter().map(|c| c.branch_name.as_str()).collect();
    assert_eq!(names, vec!["feat/auth-api", "feat/billing"]);
    assert_eq!(plan.candidates[0].depth, 1);
    assert_eq!(plan.candidates[0].parent_branch_name, "feat/auth");
    assert_eq!(plan.candidates[1].depth, 0);
    assert!(plan.blocked.is_empty());
    assert!(plan.requested_branch_name.is_none());
}

#[test]
fn evaluates_cleanable_branch_with_restack_of_children() {
    let state = stack_state();
    let facts = stack_facts(true, false, false);
    match evaluate_branch(&state, "main", &state.nodes[0], &facts).unwrap() {
        BranchEvaluation::Cleanable(c) => {
            assert_eq!(c.branch_name, "feat/auth");
            assert_eq!(c.reason, CleanReason::IntegratedIntoParent { parent_branch: "main".into() });
            assert_eq!(c.tree.children.len(), 1);
            assert_eq!(c.tree.children[0].branch_name, "feat/auth-api");
            assert_eq!(c.restack_plan.len(), 1);
            assert_eq!(c.restack_plan[0].branch_name, "feat/auth-api");
            assert_eq!(c.restack_plan[0].onto_branch, "main");
            assert!(c.restack_plan[0].parent_changed);
            assert_eq!(c.depth, 0);
        },
        BranchEvaluation::Blocked(b) => panic!("unexpected block: {:?}", b),
    }
}

#[test]
fn blocks_branches_for_each_failed_check() {
    let state = stack_state();
    let mut facts = stack_facts(false, true, true);
    let blocked = |facts: &CleanFacts, i: usize| match evaluate_branch(&state, "main", &state.nodes[i], facts).unwrap() {
        BranchEvaluation::Blocked(b) => b.reason,
        BranchEvaluation::Cleanable(c) => panic!("unexpected candidate {}", c.branch_name),
    };
    assert_eq!(blocked(&facts, 0), CleanBlockReason::NotIntegrated { parent_branch: "main".into() });

    facts.repo.heads.retain(|h| h.branch_name != "feat/auth-api");
    assert_eq!(
        blocked(&facts, 0),
        CleanBlockReason::DescendantsMissingLocally { branch_names: vec!["feat/auth-api".into()] }
    );
    assert_eq!(blocked(&facts, 1), CleanBlockReason::BranchMissingLocally);

    let mut facts = stack_facts(true, true, true);
    facts.repo.heads.retain(|h| h.branch_name != "feat/auth");
    assert_eq!(blocked(&facts, 1), CleanBlockReason::ParentMissingLocally { parent_branch: "feat/auth".into() });

    let orphan = DigState {
        version: DIG_STATE_VERSION,
        nodes: vec![node(5, "feat/lost", ParentRef::Branch { node_id: 99 })],
    };
    let facts = stack_facts(true, true, true);
    let mut with_lost = facts.clone();
    with_lost.repo.heads.push(head("feat/lost", "l1"));
    match evaluate_branch(&orphan, "main", &orphan.nodes[0], &with_lost).unwrap() {
        BranchEvaluation::Blocked(b) => assert_eq!(b.reason, CleanBlockReason::ParentMissingFromDig),
        BranchEvaluation::Cleanable(_) => panic!("expected a block"),
    }
}

#[test]
fn fails_when_git_did_not_answer_integration() {
    let state = stack_state();
    let mut facts = stack_facts(true, true, true);
    facts.integration.clear();
    let err = evaluate_branch(&state, "main", &state.nodes[2], &facts).unwrap_err();
    assert_eq!(err.kind, ErrorKind::Other);
    assert_eq!(err.message, "git command failed");
    assert!(plan_for_all_branches(&state, "main", "main", &facts).is_err());
}

#[test]
fn requested_plan_blocks_untracked_branch() {
    let state = stack_state();
    let facts = stack_facts(true, true, true);
    let plan = plan_for_requested_branch(&state, "main", "feat/auth", "feat/unknown", &facts).unwrap();
    assert!(plan.candidates.is_empty());
    assert_eq!(plan.blocked.len(), 1);
    assert_eq!(plan.blocked[0].branch_name, "feat/unknown");
    assert_eq!(plan.blocked[0].reason, CleanBlockReason::BranchNotTracked);
    assert_eq!(plan.requested_branch_name.as_deref(), Some("feat/unknown"));
}

#[test]
fn plan_trims_requested_branch_and_falls_back_to_all() {
    let state = stack_state();
    let facts = stack_facts(true, true, true);
    let requested = plan(&CleanOptions { branch_name: Some("  feat/auth  ".into()) }, &state, "main", "main", &facts)
        .unwrap();
    assert_eq!(requested.requested_branch_name.as_deref(), Some("feat/auth"));
    assert_eq!(requested.candidates.len(), 1);
    assert_eq!(requested.candidates[0].branch_name, "feat/auth");

    let all = plan(&CleanOptions { branch_name: Some("   ".into()) }, &state, "main", "main", &facts).unwrap();
    assert!(all.requested_branch_name.is_none());
    assert_eq!(all.candidates.len(), 2);
}

#[test]
fn tests_tracks_integrated_clean_reason() {
    let reason = CleanReason::IntegratedIntoParent { parent_branch: "main".into() };

    assert_eq!(reason, CleanReason::IntegratedIntoParent { parent_branch: "main".into() });
}
