use dig_stack::error::ErrorKind;
use dig_stack::gh::{
    build_create_pull_request_args, combine_command_output, create_pull_request, find_pull_request_url,
    gh_command_failed, list_open_pull_requests_args, list_open_pull_requests_for_head_args, looks_like_auth_error,
    merge_pull_request, pull_request_number_from_url, retarget_pull_request_base_args, sanitize_gh_failure_output,
    view_pull_request_args, CreatePullRequestOptions, CreatePullRequestStep, GhCommandOutput,
};

#[test]
fn extracts_pull_request_url_and_number_from_create_output() {
    let url = find_pull_request_url(
        "Creating pull request for feat/auth into main in oneirosoft/dagger.\nhttps://github.com/oneirosoft/dagger/pull/456\n",
    )
    .unwrap();

    assert_eq!(url, "https://github.com/oneirosoft/dagger/pull/456");
    assert_eq!(pull_request_number_from_url(&url), Some(456));
}

#[test]
fn ignores_non_pull_request_urls_when_extracting_number() {
    assert_eq!(pull_request_number_from_url("https://github.com/oneirosoft/dagger/issues/456"), None);
}

#[test]
fn builds_create_pull_request_args_from_options() {
    let args = build_create_pull_request_args(&CreatePullRequestOptions {
        base_branch_name: "main".into(),
        title: Some("feat: auth".into()),
        body: Some("feat: auth".into()),
        draft: true,
    });

    assert_eq!(
        args,
        vec!["pr", "create", "--base", "main", "--title", "feat: auth", "--body", "feat: auth", "--draft",]
    );
}

#[test]
fn strips_usage_block_from_gh_failure_output() {
    let sanitized = sanitize_gh_failure_output(
        "must provide `--title` and `--body`\n\nUsage:  gh pr create [flags]\n\nFlags:\n  -b, --body string\n",
    );

    assert_eq!(sanitized, "must provide `--title` and `--body`");
}

#[test]
fn combines_trimmed_stdout_and_stderr() {
    assert_eq!(combine_command_output("  out \n", "\n err "), "out\nerr");
    assert_eq!(combine_command_output("", " err "), "err");
    assert_eq!(combine_command_output("out", "  "), "out");
}

#[test]
fn recognises_authentication_failures() {
    assert!(looks_like_auth_error("To get started with GitHub CLI, please run:  GH AUTH LOGIN"));
    assert!(!looks_like_auth_error("pull request not found"));
    let err = gh_command_failed("gh pr view", "", "You are not logged into any GitHub hosts.");
    assert_eq!(err.kind, ErrorKind::Other);
    assert_eq!(err.message, "gh authentication failed; run 'gh auth login'");
    let err = gh_command_failed("gh pr view", "", "no pull requests found");
    assert_eq!(err.message, "gh pr view failed: no pull requests found");
    let err = gh_command_failed("gh pr view", "", "");
    assert_eq!(err.message, "gh pr view failed");
}

#[test]
fn reports_merge_failures_with_command_name() {
    let ok = GhCommandOutput { success: true, stdout: String::new(), stderr: String::new() };
    assert!(merge_pull_request(&ok).is_ok());
    let failed = GhCommandOutput { success: false, stdout: String::new(), stderr: "merge conflict".into() };
    let err = merge_pull_request(&failed).unwrap_err();
    assert!(err.message.ends_with("failed: merge conflict"));
}

#[test]
fn creates_pull_request_from_reported_url() {
    let options = CreatePullRequestOptions {
        base_branch_name: "main".into(),
        title: Some("feat: auth".into()),
        body: None,
        draft: false,
    };
    let output = GhCommandOutput {
        success: true,
        stdout: "https://github.com/acme/dig/pull/9\n".into(),
        stderr: String::new(),
    };
    match create_pull_request(&options, &output).unwrap() {
        CreatePullRequestStep::Created(c) => {
            assert_eq!(c.number, 9);
            assert_eq!(c.url, "https://github.com/acme/dig/pull/9");
            assert!(c.display_url_in_dagger);
        },
        other => panic!("unexpected {:?}", other),
    }
    let silent = GhCommandOutput { success: true, stdout: "done".into(), stderr: String::new() };
    let err = create_pull_request(&options, &silent).unwrap_err();
    assert_eq!(err.message, "gh pr create succeeded but did not report a pull request URL");
}

#[test]
fn builds_query_args() {
    assert_eq!(view_pull_request_args(12)[..3], ["pr", "view", "12"]);
    assert!(list_open_pull_requests_for_head_args("feat/auth").iter().any(|a| a == "feat/auth"));
    assert!(list_open_pull_requests_args().iter().any(|a| a == "open"));
    let retarget = retarget_pull_request_base_args(5, "main");
    assert!(retarget.iter().any(|a| a == "main"));
    assert!(retarget.iter().any(|a| a == "5"));
}
