use dig_stack::commit::{needs_return_after_restack, post_commit_preview, post_commit_restack_target, return_failure_message};
use dig_stack::model::{BranchNode, DigState, ParentRef, DIG_STATE_VERSION};
use dig_stack::restack::{RestackAction, RestackBaseTarget};
use dig_stack::commit::{
    build_git_commit_args, commit_summary_line, format_commit_success_output, format_recent_commits, parse_decorations,
    parse_git_log_output, CommitEntry, CommitOptions, RECENT_COMMITS_LIMIT,
};

#[test]
fn builds_commit_command_with_supported_passthrough_flags() {
    let options = CommitOptions {
        all: true,
        messages: vec!["first".into(), "second".into()],
        no_edit: true,
        amend: true,
    };

    assert_eq!(
        build_git_commit_args(&options),
        vec!["commit", "--quiet", "-a", "-m", "first", "-m", "second", "--no-edit", "--amend",]
    );
}

#[test]
fn builds_minimal_commit_command_when_no_flags_are_set() {
    let options = CommitOptions::default();

    assert_eq!(build_git_commit_args(&options), vec!["commit", "--quiet"]);
}

#[test]
fn parses_git_log_output_into_commit_entries() {
    let log = "abc1234 (HEAD -> main, tag: v0.1.0) first commit\n987fedc second commit\n";

    assert_eq!(
        parse_git_log_output(log),
        vec![
            CommitEntry {
                hash: "abc1234".into(),
                refs: vec!["main".into(), "tag: v0.1.0".into()],
                is_head: true,
                title: "first commit".into(),
            },
            CommitEntry {
                hash: "987fedc".into(),
                refs: Vec::new(),
                is_head: false,
                title: "second commit".into(),
            },
        ]
    );
}

#[test]
fn parses_head_and_tag_decorations() {
    assert_eq!(
        parse_decorations("HEAD -> main, tag: v0.1.0, origin/main"),
        (true, vec!["main".into(), "tag: v0.1.0".into(), "origin/main".into()])
    );
}

#[test]
fn reads_first_nonblank_line_as_summary() {
    assert_eq!(
        commit_summary_line("\n  \n 2 files changed, 3 insertions(+)\nmore\n").as_deref(),
        Some("2 files changed, 3 insertions(+)")
    );
    assert_eq!(commit_summary_line("\n\n"), None);
    assert_eq!(RECENT_COMMITS_LIMIT, 5);
}

#[test]
fn formats_recent_commits_for_cli_output() {
    let formatted = format_recent_commits(&[
        CommitEntry { hash: "abc1234".into(), refs: vec![], is_head: false, title: "latest commit".into() },
        CommitEntry { hash: "def5678".into(), refs: vec![], is_head: false, title: "older commit".into() },
    ]);

    assert_eq!(
        formatted,
        "\u{1b}[32m✓\u{1b}[0m \u{1b}[33mabc1234\u{1b}[0m: latest commit\n* \u{1b}[33mdef5678\u{1b}[0m: older commit"
    );
}

#[test]
fn formats_commit_output_with_summary_and_blank_line_before_log() {
    let recent = vec![CommitEntry { hash: "abc1234".into(), refs: vec![], is_head: true, title: "latest commit".into() }];

    assert_eq!(
        format_commit_success_output(Some("10 files changed, 2245 insertions(+)"), &recent),
        "10 files changed, 2245 insertions(+)\n\n\u{1b}[32m✓\u{1b}[0m \u{1b}[33mabc1234\u{1b}[0m: latest commit"
    );
    assert_eq!(format_commit_success_output(None, &[]), "");
}

fn store_node(id: u128, name: &str) -> BranchNode {
    BranchNode {
        id,
        branch_name: name.into(),
        parent: ParentRef::Trunk,
        base_ref: "main".into(),
        fork_point_oid: "f".into(),
        head_oid_at_creation: "f".into(),
        created_at_unix_secs: 1,
        pull_request: None,
        archived: false,
    }
}

#[test]
fn commit_restacks_only_tracked_non_trunk_branches() {
    let state = DigState { version: DIG_STATE_VERSION, nodes: vec![store_node(4, "feat/auth")] };
    assert_eq!(
        post_commit_restack_target(Some("feat/auth"), Some("abc"), Some("main"), &state),
        Some((4, "feat/auth".to_string(), "abc".to_string()))
    );
    assert_eq!(post_commit_restack_target(Some("main"), Some("abc"), Some("main"), &state), None);
    assert_eq!(post_commit_restack_target(Some("scratch"), Some("abc"), Some("main"), &state), None);
    assert_eq!(post_commit_restack_target(None, Some("abc"), Some("main"), &state), None);
    assert_eq!(post_commit_restack_target(Some("feat/auth"), None, Some("main"), &state), None);
    assert_eq!(post_commit_restack_target(Some("feat/auth"), Some("abc"), None, &state), None);
}

#[test]
fn commit_restack_previews_and_return_rules() {
    let action = RestackAction {
        node_id: 5,
        branch_name: "feat/ui".into(),
        old_upstream_branch_name: "feat/auth".into(),
        old_upstream_oid: "abc".into(),
        new_base: RestackBaseTarget::local("feat/auth"),
        new_parent: None,
    };
    let preview = post_commit_preview(&action);
    assert_eq!(preview.branch_name, "feat/ui");
    assert_eq!(preview.onto_branch, "feat/auth");
    assert!(!preview.parent_changed);

    assert!(!needs_return_after_restack(0, Some("feat/ui"), "feat/auth"));
    assert!(needs_return_after_restack(1, Some("feat/ui"), "feat/auth"));
    assert!(needs_return_after_restack(1, None, "feat/auth"));
    assert!(!needs_return_after_restack(2, Some("feat/auth"), "feat/auth"));
    assert_eq!(return_failure_message("feat/auth"), "commit succeeded, but failed to return to 'feat/auth' after restack");
}
