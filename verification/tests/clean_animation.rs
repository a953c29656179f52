use dig_stack::clean_animation::CleanAnimation;
use dig_stack::clean_types::{CleanCandidate, CleanEvent, CleanPlan, CleanReason, CleanTreeNode};

fn leaf(name: &str) -> CleanTreeNode {
    CleanTreeNode { branch_name: name.into(), children: vec![] }
}

fn single_candidate_plan(current: &str, requested: Option<&str>, reason: CleanReason, child: &str) -> CleanPlan {
    CleanPlan {
        trunk_branch: "main".into(),
        current_branch: current.into(),
        requested_branch_name: requested.map(|s| s.to_string()),
        candidates: vec![CleanCandidate {
            node_id: 7,
            branch_name: "feat/auth".into(),
            parent_branch_name: "main".into(),
            reason,
            tree: CleanTreeNode { branch_name: "feat/auth".into(), children: vec![leaf(child)] },
            restack_plan: vec![],
            depth: 0,
        }],
        blocked: vec![],
    }
}

#[test]
fn renders_deleted_branch_then_final_promoted_children() {
    let mut animation = CleanAnimation::new(&single_candidate_plan(
        "feat/auth",
        Some("feat/auth"),
        CleanReason::IntegratedIntoParent { parent_branch: "main".into() },
        "feat/auth-api",
    ));

    animation.apply_event(&CleanEvent::RebaseStarted {
        branch_name: "feat/auth-api".into(),
        onto_branch: "main".into(),
    });
    animation.apply_event(&CleanEvent::RebaseProgress {
        branch_name: "feat/auth-api".into(),
        onto_branch: "main".into(),
        current_commit: 2,
        total_commits: 5,
    });
    animation.apply_event(&CleanEvent::RebaseCompleted {
        branch_name: "feat/auth-api".into(),
        onto_branch: "main".into(),
    });
    animation.apply_event(&CleanEvent::DeleteCompleted { branch_name: "feat/auth".into() });

    assert_eq!(
        animation.render_active(),
        "main\n└── \u{1b}[31m✕\u{1b}[0m \u{1b}[31m\u{1b}[9mfeat/auth\u{1b}[0m\n    └── \u{1b}[32m✓\u{1b}[0m feat/auth-api"
    );
    assert_eq!(animation.render_final(), "main\n└── \u{1b}[32m✓\u{1b}[0m feat/auth-api");
}

#[test]
fn renders_archived_branch_then_final_promoted_children() {
    let mut animation = CleanAnimation::new(&single_candidate_plan(
        "main",
        None,
        CleanReason::DeletedLocally,
        "feat/users",
    ));

    animation.apply_event(&CleanEvent::ArchiveCompleted { branch_name: "feat/auth".into() });

    assert_eq!(
        animation.render_active(),
        "main\n└── \u{1b}[33m~\u{1b}[0m \u{1b}[33m\u{1b}[9mfeat/auth\u{1b}[0m\n    └── feat/users"
    );
    assert_eq!(animation.render_final(), "main\n└── feat/users");
}

#[test]
fn clean_animation_reports_change_only_for_shown_branches() {
    let mut animation = CleanAnimation::new(&single_candidate_plan(
        "main",
        None,
        CleanReason::DeletedLocally,
        "feat/users",
    ));
    let before = animation.render_active();

    assert!(!animation.apply_event(&CleanEvent::SwitchingToTrunk {
        from_branch: "feat/auth".into(),
        to_branch: "main".into(),
    }));
    assert!(!animation.apply_event(&CleanEvent::DeleteStarted { branch_name: "feat/other".into() }));
    assert_eq!(animation.render_active(), before);
    assert!(animation.apply_event(&CleanEvent::DeleteStarted { branch_name: "feat/users".into() }));
    assert_eq!(
        animation.render_active(),
        "main\n└── feat/auth\n    └── \u{1b}[38;5;208m|\u{1b}[0m \u{1b}[38;5;208mfeat/users\u{1b}[0m"
    );
}

#[test]
fn clean_animation_separates_sections_with_blank_line() {
    let mut plan = single_candidate_plan("main", None, CleanReason::DeletedLocally, "feat/users");
    plan.candidates.push(CleanCandidate {
        node_id: 9,
        branch_name: "feat/billing".into(),
        parent_branch_name: "develop".into(),
        reason: CleanReason::DeletedLocally,
        tree: leaf("feat/billing"),
        restack_plan: vec![],
        depth: 0,
    });
    let mut animation = CleanAnimation::new(&plan);
    animation.apply_event(&CleanEvent::ArchiveCompleted { branch_name: "feat/billing".into() });

    assert_eq!(
        animation.render_active(),
        "main\n└── feat/auth\n    └── feat/users\n\ndevelop\n└── \u{1b}[33m~\u{1b}[0m \u{1b}[33m\u{1b}[9mfeat/billing\u{1b}[0m"
    );
    assert_eq!(animation.render_final(), "main\n└── feat/auth\n    └── feat/users\n\ndevelop");
}
