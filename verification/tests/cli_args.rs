use dig_stack::clean_types::CleanOptions;
use dig_stack::cli_args::{
    AdoptArgs, BranchArgs, CleanArgs, CommitArgs, InitArgs, MergeArgs, OrphanArgs, PrArgs, PrCommand, PrListArgs,
    ReparentArgs, SwitchArgs, SyncArgs, TreeArgs,
};
use dig_stack::commit::CommitOptions;
use dig_stack::merge::{MergeMode, MergeOptions};
use dig_stack::options::{AdoptOptions, BranchOptions, InitOptions, OrphanOptions, ReparentOptions, SyncOptions};
use dig_stack::pr::PrOptions;
use dig_stack::tree_view::TreeOptions;

#[test]
fn converts_cli_args_into_core_adopt_options() {
    let args = AdoptArgs {
        branch_name: Some("feat/auth-ui".into()),
        parent_branch_name: "feat/auth".into(),
    };

    let options = AdoptOptions::from(args);

    assert_eq!(options.branch_name.as_deref(), Some("feat/auth-ui"));
    assert_eq!(options.parent_branch_name, "feat/auth");
}

#[test]
fn converts_cli_args_into_core_branch_options() {
    let args = BranchArgs {
        name: "feature/api".into(),
        parent_branch_name: Some("main".into()),
    };

    let options = BranchOptions::from(args);

    assert_eq!(options.name, "feature/api");
    assert_eq!(options.parent_branch_name.as_deref(), Some("main"));
}

#[test]
fn clean_converts_cli_args_into_core_clean_options() {
    let args = CleanArgs {
        branch_name: Some("feat/auth".into()),
    };

    let options = CleanOptions::from(args);

    assert_eq!(options.branch_name.as_deref(), Some("feat/auth"));
}

#[test]
fn mod_converts_cli_args_into_core_clean_options() {
    let args = CleanArgs {
        branch_name: Some("feat/auth".into()),
    };

    let options = CleanOptions::from(args);

    assert_eq!(options.branch_name.as_deref(), Some("feat/auth"));
}

#[test]
fn converts_cli_args_into_core_commit_options() {
    let args = CommitArgs {
        all: true,
        messages: vec!["message".into()],
        no_edit: true,
        amend: true,
    };

    assert_eq!(
        CommitOptions::from(args),
        CommitOptions {
            all: true,
            messages: vec!["message".into()],
            no_edit: true,
            amend: true,
        }
    );
}

#[test]
fn converts_cli_args_into_core_init_options() {
    assert_eq!(InitOptions::from(InitArgs::default()), InitOptions::default());
}

#[test]
fn converts_cli_args_into_core_merge_options() {
    let options = MergeOptions::from(MergeArgs {
        squash: true,
        messages: vec!["subject".into()],
        branch_name: "feat/auth".into(),
    });

    assert_eq!(
        options,
        MergeOptions {
            branch_name: "feat/auth".into(),
            mode: MergeMode::Squash,
            messages: vec!["subject".into()],
        }
    );
}

#[test]
fn converts_cli_args_without_squash_into_normal_merge() {
    let options = MergeOptions::from(MergeArgs {
        squash: false,
        messages: vec![],
        branch_name: "feat/auth".into(),
    });

    assert_eq!(options.mode, MergeMode::Normal);
    assert!(options.messages.is_empty());
}

#[test]
fn converts_cli_args_into_core_orphan_options() {
    let options = OrphanOptions::from(OrphanArgs {
        branch_name: Some("feat/auth".into()),
    });

    assert_eq!(options.branch_name.as_deref(), Some("feat/auth"));
}

#[test]
fn converts_cli_args_into_core_pr_options() {
    let options = PrOptions::from(PrArgs {
        command: None,
        title: Some("feat: auth".into()),
        body: Some("Implements auth.".into()),
        draft: true,
        view: true,
    });

    assert_eq!(options.title.as_deref(), Some("feat: auth"));
    assert_eq!(options.body.as_deref(), Some("Implements auth."));
    assert!(options.draft);
    assert!(!options.push_if_needed);
}

#[test]
fn preserves_pr_list_subcommand_args() {
    match (PrArgs {
        command: Some(PrCommand::List(PrListArgs { view: true })),
        title: None,
        body: None,
        draft: false,
        view: false,
    })
    .command
    .unwrap()
    {
        PrCommand::List(args) => assert!(args.view),
    }
}

#[test]
fn converts_cli_args_into_core_reparent_options() {
    let options = ReparentOptions::from(ReparentArgs {
        branch_name: Some("feat/auth-ui".into()),
        parent_branch_name: "feat/platform".into(),
    });

    assert_eq!(options.branch_name.as_deref(), Some("feat/auth-ui"));
    assert_eq!(options.parent_branch_name, "feat/platform");
}

#[test]
fn preserves_optional_branch_name() {
    assert_eq!(
        SwitchArgs {
            branch_name: Some("feat/auth".into()),
        }
        .branch_name
        .as_deref(),
        Some("feat/auth")
    );
}

#[test]
fn converts_cli_args_into_core_sync_options() {
    let options = SyncOptions::from(SyncArgs {
        continue_operation: true,
    });

    assert!(options.continue_operation);
}

#[test]
fn converts_cli_args_into_core_tree_options() {
    let options = TreeOptions::from(TreeArgs {
        branch_name: Some("feat/auth".into()),
    });

    assert_eq!(options.branch_name.as_deref(), Some("feat/auth"));
}
