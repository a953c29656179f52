use dig_stack::git::CommitMetadata;
use dig_stack::merge::build_squash_commit_message;
use dig_stack::restack::RestackPreview;
use dig_stack::summary::{
    format_adopt_success_output, format_orphan_success_output, format_reparent_success_output,
    format_restacked_branches, join_sections,
};

#[test]
fn formats_adopt_success_output_with_tree_context() {
    let output = format_adopt_success_output(
        "feat/auth-ui",
        "feat/auth",
        true,
        Some("feat/auth"),
        "main\n└── feat/auth\n    └── feat/auth-ui",
    );

    assert_eq!(
        output,
        "Adopted 'feat/auth-ui' under 'feat/auth'.\nRestacked 'feat/auth-ui' onto 'feat/auth'.\nReturned to 'feat/auth' after adopt.\n\nmain\n└── feat/auth\n    └── feat/auth-ui"
    );
}

#[test]
fn formats_orphan_success_output_with_tree_context() {
    let output = format_orphan_success_output(
        "feat/auth",
        &vec![RestackPreview { branch_name: "feat/auth-ui".into(), onto_branch: "main".into(), parent_changed: true }],
        Some("feat/auth"),
        "main\n└── feat/auth-ui",
    );

    assert_eq!(
        output,
        "Orphaned 'feat/auth'. It is no longer tracked by dig.\nReturned to 'feat/auth' after orphaning.\n\nRestacked:\n- feat/auth-ui onto main\n\nmain\n└── feat/auth-ui"
    );
}

#[test]
fn formats_reparent_success_output_with_tree_context() {
    let output = format_reparent_success_output(
        "feat/auth-ui",
        "feat/platform",
        &vec![
            RestackPreview {
                branch_name: "feat/auth-ui".into(),
                onto_branch: "feat/platform".into(),
                parent_changed: true,
            },
            RestackPreview {
                branch_name: "feat/auth-ui-tests".into(),
                onto_branch: "feat/auth-ui".into(),
                parent_changed: false,
            },
        ],
        Some("main"),
        "main\n└── feat/platform\n    └── feat/auth-ui",
    );

    assert_eq!(
        output,
        "Reparented 'feat/auth-ui' onto 'feat/platform'.\nReturned to 'main' after reparenting.\n\nRestacked:\n- feat/auth-ui onto feat/platform\n- feat/auth-ui-tests onto feat/auth-ui\n\nmain\n└── feat/platform\n    └── feat/auth-ui"
    );
}

#[test]
fn omits_blank_tree_and_empty_restack_sections() {
    assert_eq!(format_adopt_success_output("a", "b", false, None, "  \n"), "Adopted 'a' under 'b'.");
    assert_eq!(format_orphan_success_output("a", &vec![], None, ""), "Orphaned 'a'. It is no longer tracked by dig.");
    assert_eq!(format_restacked_branches(&vec![]), "Restacked:");
    assert_eq!(join_sections(&vec!["x".into(), "y".into()]), "x\n\ny");
}

#[test]
fn builds_default_squash_commit_message_with_commit_listing() {
    let message = build_squash_commit_message(
        "feat/auth",
        "main",
        &[],
        &[
            CommitMetadata { sha: "abc123".into(), subject: "feat: auth".into(), body: String::new() },
            CommitMetadata { sha: "def456".into(), subject: "feat: auth api".into(), body: String::new() },
        ],
    );

    assert_eq!(
        message,
        "merge feat/auth into main\n\ncommit abc123\n    feat: auth\n\ncommit def456\n    feat: auth api"
    );
}

#[test]
fn appends_commit_listing_after_user_supplied_squash_message() {
    let message = build_squash_commit_message(
        "feat/auth",
        "main",
        &["custom subject".into(), "extra context".into()],
        &[CommitMetadata { sha: "abc123".into(), subject: "feat: auth".into(), body: String::new() }],
    );

    assert_eq!(message, "custom subject\n\nextra context\n\ncommit abc123\n    feat: auth");
}
