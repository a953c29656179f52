use std::collections::HashMap;

use dig_stack::gh::{PullRequestDetails, PullRequestSummary};
use dig_stack::git::{BranchPushTarget, GitCommandOutput};
use dig_stack::model::{BranchNode, DigState, ParentRef, TrackedPullRequest, DIG_STATE_VERSION};
use dig_stack::pr::{
    build_pull_request_list_nodes, check_push_before_create, check_push_outcome, collect_pull_requests_in_order,
    format_pr_outcome, pull_request_create_target, pull_request_run_target, push_confirmation_prompt,
    push_declined_message, render_pull_request_list, resolve_tracking_action, PrOptions, PrOutcomeKind,
    PrTrackingAction, TrackedPullRequestListNode, TrackedPullRequestListView,
};
use dig_stack::tree_view::TreeNode;

#[test]
fn resolves_create_when_no_open_pull_requests_exist() {
    let action = resolve_tracking_action("feat/auth", "main", &[]).unwrap();

    assert_eq!(action, PrTrackingAction::Create);
}

#[test]
fn resolves_adopt_for_matching_open_pull_request() {
    let action = resolve_tracking_action(
        "feat/auth",
        "main",
        &[PullRequestSummary {
            number: 123,
            base_ref_name: "main".into(),
            url: "https://github.com/acme/dig/pull/123".into(),
        }],
    )
    .unwrap();

    assert_eq!(
        action,
        PrTrackingAction::Adopt(PullRequestSummary {
            number: 123,
            base_ref_name: "main".into(),
            url: "https://github.com/acme/dig/pull/123".into(),
        })
    );
}

#[test]
fn rejects_open_pull_request_with_mismatched_base() {
    let error = resolve_tracking_action(
        "feat/auth",
        "main",
        &[PullRequestSummary {
            number: 123,
            base_ref_name: "develop".into(),
            url: "https://github.com/acme/dig/pull/123".into(),
        }],
    )
    .unwrap_err();

    assert!(error.to_string().contains("expects base 'main'"));
}

#[test]
fn rejects_multiple_open_pull_requests() {
    let error = resolve_tracking_action(
        "feat/auth",
        "main",
        &[
            PullRequestSummary {
                number: 123,
                base_ref_name: "main".into(),
                url: "https://github.com/acme/dig/pull/123".into(),
            },
            PullRequestSummary {
                number: 124,
                base_ref_name: "main".into(),
                url: "https://github.com/acme/dig/pull/124".into(),
            },
        ],
    )
    .unwrap_err();

    assert!(error.to_string().contains("multiple open pull requests"));
}

#[test]
fn builds_pull_request_list_nodes_by_collapsing_non_pr_branches() {
    let nodes = build_pull_request_list_nodes(
        &TreeNode {
            branch_name: "feat/auth".into(),
            is_current: false,
            pull_request_number: None,
            children: vec![TreeNode {
                branch_name: "feat/auth-ui".into(),
                is_current: false,
                pull_request_number: Some(123),
                children: vec![],
            }],
        },
        &HashMap::from([(
            123,
            PullRequestDetails {
                number: 123,
                title: "Auth UI".into(),
                url: "https://github.com/acme/dig/pull/123".into(),
            },
        )]),
    );

    assert_eq!(
        nodes,
        vec![TrackedPullRequestListNode {
            pull_request: PullRequestDetails {
                number: 123,
                title: "Auth UI".into(),
                url: "https://github.com/acme/dig/pull/123".into(),
            },
            children: vec![],
        }]
    );
}

#[test]
fn collects_pull_requests_in_tree_order() {
    let mut ordered_pull_requests = Vec::new();
    collect_pull_requests_in_order(
        &[TrackedPullRequestListNode {
            pull_request: PullRequestDetails {
                number: 123,
                title: "Auth".into(),
                url: "https://github.com/acme/dig/pull/123".into(),
            },
            children: vec![TrackedPullRequestListNode {
                pull_request: PullRequestDetails {
                    number: 124,
                    title: "Auth UI".into(),
                    url: "https://github.com/acme/dig/pull/124".into(),
                },
                children: vec![],
            }],
        }],
        &mut ordered_pull_requests,
    );

    assert_eq!(
        ordered_pull_requests
            .iter()
            .map(|pr| pr.number)
            .collect::<Vec<_>>(),
        vec![123, 124]
    );
}

#[test]
fn renders_pull_request_list_as_tree() {
    let rendered = render_pull_request_list(&TrackedPullRequestListView {
        root_label: Some("main".into()),
        roots: vec![TrackedPullRequestListNode {
            pull_request: PullRequestDetails {
                number: 123,
                title: "Auth".into(),
                url: "https://github.com/acme/dig/pull/123".into(),
            },
            children: vec![TrackedPullRequestListNode {
                pull_request: PullRequestDetails {
                    number: 124,
                    title: "Auth UI".into(),
                    url: "https://github.com/acme/dig/pull/124".into(),
                },
                children: vec![],
            }],
        }],
    });

    assert_eq!(
        rendered,
        "main\n└── #123: Auth - https://github.com/acme/dig/pull/123\n    └── #124: Auth UI - https://github.com/acme/dig/pull/124"
    );
}

#[test]
fn mismatched_base_message_names_both_bases() {
    let error = resolve_tracking_action(
        "feat/auth",
        "main",
        &[PullRequestSummary { number: 7, base_ref_name: "develop".into(), url: "u".into() }],
    )
    .unwrap_err();
    assert_eq!(
        error.message,
        "branch 'feat/auth' already has open pull request #7 into 'develop', but dig expects base 'main'"
    );
}

#[test]
fn drops_pull_requests_that_are_not_open() {
    let nodes = build_pull_request_list_nodes(
        &TreeNode {
            branch_name: "feat/auth".into(),
            is_current: false,
            pull_request_number: Some(5),
            children: vec![],
        },
        &HashMap::new(),
    );
    assert!(nodes.is_empty());
}

fn pr_node(id: u128, name: &str, parent: ParentRef, pr: Option<u64>) -> BranchNode {
    BranchNode {
        id,
        branch_name: name.into(),
        parent,
        base_ref: "main".into(),
        fork_point_oid: "f".into(),
        head_oid_at_creation: "f".into(),
        created_at_unix_secs: 1,
        pull_request: pr.map(|number| TrackedPullRequest { number }),
        archived: false,
    }
}

fn pr_state() -> DigState {
    DigState {
        version: DIG_STATE_VERSION,
        nodes: vec![
            pr_node(1, "feat/auth", ParentRef::Trunk, Some(12)),
            pr_node(2, "feat/api", ParentRef::Branch { node_id: 1 }, None),
            pr_node(3, "feat/lost", ParentRef::Branch { node_id: 9 }, Some(5)),
        ],
    }
}

#[test]
fn run_target_names_branch_base_and_tracked_pull_request() {
    let state = pr_state();
    let auth = pull_request_run_target(&state, "main", Some("feat/auth")).unwrap();
    assert_eq!(auth.branch_name, "feat/auth");
    assert_eq!(auth.base_branch_name, "main");
    assert_eq!(auth.tracked_pull_request, Some(12));

    let api = pull_request_run_target(&state, "main", Some("feat/api")).unwrap();
    assert_eq!(api.base_branch_name, "feat/auth");
    assert_eq!(api.tracked_pull_request, None);

    let lost = pull_request_run_target(&state, "main", Some("feat/lost")).unwrap_err();
    assert_eq!(lost.message, "tracked parent branch for 'feat/lost' was not found");
    let untracked = pull_request_run_target(&state, "main", Some("scratch")).unwrap_err();
    assert_eq!(untracked.message, "branch 'scratch' is not tracked by dig");
    let detached = pull_request_run_target(&state, "main", None).unwrap_err();
    assert_eq!(detached.message, "dig pr requires a named branch; detached HEAD is not supported");
}

#[test]
fn formats_pull_request_outcomes() {
    assert_eq!(
        format_pr_outcome(PrOutcomeKind::AlreadyTracked, "feat/auth", "main", 12),
        "Branch 'feat/auth' already tracks pull request #12."
    );
    assert_eq!(
        format_pr_outcome(PrOutcomeKind::Created, "feat/auth", "main", 13),
        "Created pull request #13 for 'feat/auth' into 'main'."
    );
    assert_eq!(
        format_pr_outcome(PrOutcomeKind::Adopted, "feat/api", "feat/auth", 14),
        "Tracking existing pull request #14 for 'feat/api' into 'feat/auth'."
    );
}

#[test]
fn push_before_create_is_asked_checked_and_reported() {
    let target = BranchPushTarget { remote_name: "origin".into(), branch_name: "feat/auth".into() };
    assert_eq!(
        push_confirmation_prompt(&target),
        "Branch 'feat/auth' is not pushed to 'origin'. Push it and create the pull request? [y/N] "
    );
    assert_eq!(push_declined_message(&target), "Did not create pull request because 'feat/auth' is not pushed to 'origin'.");

    let mut options = PrOptions::default();
    assert!(!check_push_before_create(&options, None).unwrap());
    assert_eq!(
        check_push_before_create(&options, Some(&target)).unwrap_err().message,
        "branch 'feat/auth' is not pushed to 'origin'"
    );
    options.push_if_needed = true;
    assert!(check_push_before_create(&options, Some(&target)).unwrap());

    let ok = GitCommandOutput { success: true, stdout: String::new(), stderr: String::new() };
    assert!(check_push_outcome(&target, &ok).is_ok());
    let quiet = GitCommandOutput { success: false, stdout: " ".into(), stderr: String::new() };
    assert_eq!(
        check_push_outcome(&target, &quiet).unwrap_err().message,
        "git push to 'origin' failed for branch 'feat/auth'"
    );
    let loud = GitCommandOutput { success: false, stdout: String::new(), stderr: "rejected\n".into() };
    assert_eq!(
        check_push_outcome(&target, &loud).unwrap_err().message,
        "git push to 'origin' failed for branch 'feat/auth': rejected"
    );
}

#[test]
fn create_target_skips_branches_that_already_track_a_pull_request() {
    let state = pr_state();
    assert_eq!(pull_request_create_target(&state, "main", Some("feat/auth")).unwrap(), None);
    assert_eq!(
        pull_request_create_target(&state, "main", Some("feat/api")).unwrap(),
        Some(("feat/api".to_string(), "feat/auth".to_string()))
    );
    assert_eq!(pull_request_create_target(&state, "main", Some("feat/lost")).unwrap(), None);
}
