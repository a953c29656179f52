use dig_stack::error::{DigError, ErrorKind};
use dig_stack::git::{
    branch_head_is_pushed_to_remote, branch_push_target, branch_push_target_if_needed, cherry_markers,
    commit_metadata_in_range, current_branch_name, current_branch_name_if_any, current_branch_name_or,
    ensure_clean_worktree, ensure_no_in_progress_operations, git_remote_names, is_rebase_in_progress,
    parse_commit_metadata_records, parse_latest_rebase_progress, remote_tracking_branch_ref, remote_tracking_ref_name,
    resolve_push_remote_name, CherryMarker, CommitMetadata, GitCommandOutput, InProgressMarkers, RebaseProgress,
};

fn ok(stdout: &str) -> GitCommandOutput {
    GitCommandOutput { success: true, stdout: stdout.into(), stderr: String::new() }
}

fn failed(stderr: &str) -> GitCommandOutput {
    GitCommandOutput { success: false, stdout: String::new(), stderr: stderr.into() }
}

#[test]
fn reports_in_progress_rebase_state() {
    let markers = InProgressMarkers {
        merge_head: false,
        cherry_pick_head: false,
        rebase_head: false,
        rebase_merge: true,
        rebase_apply: false,
    };
    let error = ensure_no_in_progress_operations(&markers, "clean").unwrap_err();

    assert!(error.to_string().contains("rebase"));
    assert!(is_rebase_in_progress(&markers));
}

#[test]
fn allows_commands_without_unfinished_operations() {
    let clear = InProgressMarkers {
        merge_head: false,
        cherry_pick_head: false,
        rebase_head: false,
        rebase_merge: false,
        rebase_apply: false,
    };
    assert!(ensure_no_in_progress_operations(&clear, "sync").is_ok());
    let merging = InProgressMarkers { merge_head: true, ..clear };
    assert_eq!(
        ensure_no_in_progress_operations(&merging, "sync").unwrap_err().message,
        "dig sync cannot run while a git merge is in progress"
    );
}

#[test]
fn parses_git_cherry_markers() {
    let markers = cherry_markers(&ok("- abc123\n+ def456\n")).unwrap();

    assert_eq!(markers, vec![CherryMarker::Equivalent, CherryMarker::Missing]);
}

#[test]
fn cherry_markers_is_present_for_runtime_use() {
    let function_ptr: fn(&GitCommandOutput) -> Result<Vec<CherryMarker>, DigError> = cherry_markers;
    assert!((function_ptr as usize) != 0);
}

#[test]
fn parses_rebase_progress_from_git_output() {
    assert_eq!(
        parse_latest_rebase_progress("Rebasing (2/7)\rSuccessfully rebased"),
        Some(RebaseProgress { current: 2, total: 7 })
    );
}

#[test]
fn takes_the_latest_rebase_progress() {
    assert_eq!(
        parse_latest_rebase_progress("Rebasing (1/3)\rRebasing (3/3)\r"),
        Some(RebaseProgress { current: 3, total: 3 })
    );
    assert_eq!(parse_latest_rebase_progress("nothing to do"), None);
}

#[test]
fn parses_commit_metadata_records_from_git_log_output() {
    assert_eq!(
        parse_commit_metadata_records(
            "abc123\u{1f}feat: first\u{1f}feat: first\n\nbody\u{1e}def456\u{1f}feat: second\u{1f}feat: second\u{1e}"
        ),
        vec![
            CommitMetadata { sha: "abc123".into(), subject: "feat: first".into(), body: "feat: first\n\nbody".into() },
            CommitMetadata { sha: "def456".into(), subject: "feat: second".into(), body: "feat: second".into() },
        ]
    );
}

#[test]
fn reads_commit_metadata_or_reports_failure() {
    let records = commit_metadata_in_range(&ok("abc\u{1f}s\u{1f}b\u{1e}")).unwrap();
    assert_eq!(records.len(), 1);
    let err = commit_metadata_in_range(&failed("fatal: bad revision")).unwrap_err();
    assert_eq!(err.kind, ErrorKind::Other);
    assert_eq!(err.message, "fatal: bad revision");
}

#[test]
fn reads_current_branch_name() {
    assert_eq!(current_branch_name(&ok("feat/auth\n")).unwrap(), "feat/auth");
    assert_eq!(current_branch_name_if_any(&ok("\n")).unwrap(), None);
    assert_eq!(current_branch_name_or(&failed("detached"), "main"), "main");
}

#[test]
fn requires_clean_worktree() {
    assert!(ensure_clean_worktree("sync", &ok("")).is_ok());
    assert_eq!(
        ensure_clean_worktree("sync", &ok(" M src/lib.rs\n")).unwrap_err().message,
        "sync requires a clean working tree"
    );
}

#[test]
fn resolves_push_remote_and_target() {
    let remotes = git_remote_names("origin\nupstream\n");
    assert_eq!(remotes, vec!["origin", "upstream"]);
    assert_eq!(resolve_push_remote_name(Some("upstream".into()), &remotes).as_deref(), Some("upstream"));
    assert_eq!(resolve_push_remote_name(None, &remotes).as_deref(), Some("origin"));
    let target = branch_push_target(Some("origin".into()), "feat/auth").unwrap();
    assert_eq!(target.remote_name, "origin");
    assert_eq!(target.branch_name, "feat/auth");
    assert!(branch_push_target_if_needed(Some(target.clone()), true).is_none());
    assert_eq!(branch_push_target_if_needed(Some(target.clone()), false), Some(target));
    assert_eq!(remote_tracking_branch_ref("origin", "feat/auth"), "origin/feat/auth");
    assert_eq!(remote_tracking_ref_name("origin", "feat/auth"), "refs/remotes/origin/feat/auth");
}

#[test]
fn checks_whether_the_remote_has_the_local_head() {
    assert!(branch_head_is_pushed_to_remote("abc123\trefs/heads/feat/auth\n", "abc123"));
    assert!(!branch_head_is_pushed_to_remote("def456\trefs/heads/feat/auth\n", "abc123"));
    assert!(!branch_head_is_pushed_to_remote("", "abc123"));
}
