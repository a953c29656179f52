use dig_stack::graph::BranchLineageNode;
use dig_stack::plain_lineage;
use dig_stack::tree_view::{
    format_branch_label, format_branch_text, render_branch_lineage, render_stack_tree, stack_tree_rows, StackTreeRow,
    TreeLabel, TreeNode, TreeView,
};

#[test]
fn tree_renders_linear_branch_lineage_as_vertical_path() {
    let tree = plain_lineage::render_branch_lineage(&[
        "feature/api-followup".into(),
        "feature/api".into(),
        "main".into(),
    ]);

    assert_eq!(
        tree,
        "\u{1b}[32m✓\u{1b}[0m \u{1b}[32mfeature/api-followup\u{1b}[0m\n│\nfeature/api\n│\nmain"
    );
}

#[test]
fn formats_branch_text_and_labels() {
    assert_eq!(format_branch_text("feat/a", Some(7)), "feat/a (#7)");
    assert_eq!(format_branch_text("feat/a", None), "feat/a");
    assert_eq!(format_branch_label("feat/a", false, None), "* feat/a");
    assert_eq!(
        format_branch_label("feat/a", true, Some(3)),
        "\u{1b}[32m✓\u{1b}[0m \u{1b}[32mfeat/a (#3)\u{1b}[0m"
    );
}

#[test]
fn renders_empty_lineage_as_nothing() {
    assert_eq!(render_branch_lineage(&[]), "");
    assert_eq!(plain_lineage::render_branch_lineage(&[]), "");
}

#[test]
fn render_renders_linear_branch_lineage_as_vertical_path() {
    let tree = render_branch_lineage(&[
        BranchLineageNode {
            branch_name: "feature/api-followup".into(),
            pull_request_number: None,
        },
        BranchLineageNode {
            branch_name: "feature/api".into(),
            pull_request_number: None,
        },
        BranchLineageNode {
            branch_name: "main".into(),
            pull_request_number: None,
        },
    ]);

    assert_eq!(
        tree,
        "\u{1b}[32m✓\u{1b}[0m \u{1b}[32mfeature/api-followup\u{1b}[0m\n│ \n* feature/api\n│ \n* main"
    );
}

#[test]
fn renders_single_branch_lineage_without_connectors() {
    let tree = render_branch_lineage(&[BranchLineageNode {
        branch_name: "main".into(),
        pull_request_number: None,
    }]);

    assert_eq!(tree, "\u{1b}[32m✓\u{1b}[0m \u{1b}[32mmain\u{1b}[0m");
}

#[test]
fn renders_pull_request_numbers_in_lineage_view() {
    let tree = render_branch_lineage(&[
        BranchLineageNode {
            branch_name: "feature/api-followup".into(),
            pull_request_number: Some(43),
        },
        BranchLineageNode {
            branch_name: "feature/api".into(),
            pull_request_number: Some(42),
        },
        BranchLineageNode {
            branch_name: "main".into(),
            pull_request_number: None,
        },
    ]);

    assert_eq!(
        tree,
        "\u{1b}[32m✓\u{1b}[0m \u{1b}[32mfeature/api-followup (#43)\u{1b}[0m\n│ \n* feature/api (#42)\n│ \n* main"
    );
}

#[test]
fn renders_shared_root_stack_tree() {
    let rendered = render_stack_tree(&TreeView {
        root_label: Some(TreeLabel {
            branch_name: "main".into(),
            is_current: false,
            pull_request_number: None,
        }),
        roots: vec![
            TreeNode {
                branch_name: "feat/auth".into(),
                is_current: false,
                pull_request_number: None,
                children: vec![
                    TreeNode {
                        branch_name: "feat/auth-api".into(),
                        is_current: false,
                        pull_request_number: None,
                        children: vec![TreeNode {
                            branch_name: "feat/auth-api-tests".into(),
                            is_current: false,
                            pull_request_number: None,
                            children: vec![],
                        }],
                    },
                    TreeNode {
                        branch_name: "feat/auth-ui".into(),
                        is_current: true,
                        pull_request_number: None,
                        children: vec![],
                    },
                ],
            },
            TreeNode {
                branch_name: "feat/billing".into(),
                is_current: false,
                pull_request_number: None,
                children: vec![TreeNode {
                    branch_name: "feat/billing-retry".into(),
                    is_current: false,
                    pull_request_number: None,
                    children: vec![],
                }],
            },
            TreeNode {
                branch_name: "docs/readme".into(),
                is_current: false,
                pull_request_number: None,
                children: vec![],
            },
        ],
        current_branch_name: Some("feat/auth-ui".into()),
        is_current_visible: true,
        current_branch_suffix: None,
    });

    assert_eq!(
        rendered,
        "* main\n├── * feat/auth\n│   ├── * feat/auth-api\n│   │   └── * feat/auth-api-tests\n│   └── \u{1b}[32m✓\u{1b}[0m \u{1b}[32mfeat/auth-ui\u{1b}[0m\n├── * feat/billing\n│   └── * feat/billing-retry\n└── * docs/readme"
    );
}

#[test]
fn renders_filtered_branch_tree_without_trunk_header() {
    let rendered = render_stack_tree(&TreeView {
        root_label: Some(TreeLabel {
            branch_name: "feat/auth".into(),
            is_current: false,
            pull_request_number: None,
        }),
        roots: vec![
            TreeNode {
                branch_name: "feat/auth-api".into(),
                is_current: false,
                pull_request_number: None,
                children: vec![TreeNode {
                    branch_name: "feat/auth-api-tests".into(),
                    is_current: false,
                    pull_request_number: None,
                    children: vec![],
                }],
            },
            TreeNode {
                branch_name: "feat/auth-ui".into(),
                is_current: true,
                pull_request_number: None,
                children: vec![],
            },
        ],
        current_branch_name: Some("feat/auth-ui".into()),
        is_current_visible: true,
        current_branch_suffix: None,
    });

    assert_eq!(
        rendered,
        "* feat/auth\n├── * feat/auth-api\n│   └── * feat/auth-api-tests\n└── \u{1b}[32m✓\u{1b}[0m \u{1b}[32mfeat/auth-ui\u{1b}[0m"
    );
}

#[test]
fn renders_pull_request_numbers_for_normal_current_and_filtered_root_labels() {
    let rendered = render_stack_tree(&TreeView {
        root_label: Some(TreeLabel {
            branch_name: "feat/auth".into(),
            is_current: false,
            pull_request_number: Some(42),
        }),
        roots: vec![
            TreeNode {
                branch_name: "feat/auth-api".into(),
                is_current: false,
                pull_request_number: Some(43),
                children: vec![],
            },
            TreeNode {
                branch_name: "feat/auth-ui".into(),
                is_current: true,
                pull_request_number: Some(44),
                children: vec![],
            },
        ],
        current_branch_name: Some("feat/auth-ui".into()),
        is_current_visible: true,
        current_branch_suffix: None,
    });

    assert_eq!(
        rendered,
        "* feat/auth (#42)\n├── * feat/auth-api (#43)\n└── \u{1b}[32m✓\u{1b}[0m \u{1b}[32mfeat/auth-ui (#44)\u{1b}[0m"
    );
}

#[test]
fn renders_hidden_tracked_current_branch_at_bottom() {
    let rendered = render_stack_tree(&TreeView {
        root_label: Some(TreeLabel {
            branch_name: "feat/billing".into(),
            is_current: false,
            pull_request_number: None,
        }),
        roots: vec![],
        current_branch_name: Some("feat/auth-ui".into()),
        is_current_visible: false,
        current_branch_suffix: None,
    });

    assert_eq!(
        rendered,
        "* feat/billing\n\n\u{1b}[32m✓\u{1b}[0m \u{1b}[32mfeat/auth-ui\u{1b}[0m"
    );
}

#[test]
fn renders_hidden_orphaned_current_branch_at_bottom() {
    let rendered = render_stack_tree(&TreeView {
        root_label: Some(TreeLabel {
            branch_name: "main".into(),
            is_current: false,
            pull_request_number: None,
        }),
        roots: vec![TreeNode {
            branch_name: "feat/tracked".into(),
            is_current: false,
            pull_request_number: None,
            children: vec![],
        }],
        current_branch_name: Some("feat/untracked".into()),
        is_current_visible: false,
        current_branch_suffix: Some("(orphaned)".into()),
    });

    assert_eq!(
        rendered,
        "* main\n└── * feat/tracked\n\n\u{1b}[32m✓\u{1b}[0m \u{1b}[32mfeat/untracked (orphaned)\u{1b}[0m"
    );
}

#[test]
fn builds_rows_in_tree_order_with_connectors_and_metadata() {
    assert_eq!(
        stack_tree_rows(&TreeView {
            root_label: Some(TreeLabel {
                branch_name: "main".into(),
                is_current: false,
                pull_request_number: None,
            }),
            roots: vec![
                TreeNode {
                    branch_name: "feat/auth".into(),
                    is_current: false,
                    pull_request_number: Some(101),
                    children: vec![TreeNode {
                        branch_name: "feat/auth-ui".into(),
                        is_current: true,
                        pull_request_number: None,
                        children: vec![],
                    }],
                },
                TreeNode {
                    branch_name: "feat/billing".into(),
                    is_current: false,
                    pull_request_number: None,
                    children: vec![],
                },
            ],
            current_branch_name: Some("feat/auth-ui".into()),
            is_current_visible: true,
            current_branch_suffix: None,
        }),
        vec![
            StackTreeRow {
                branch_name: "main".into(),
                is_current: false,
                pull_request_number: None,
                line: "* main".into(),
            },
            StackTreeRow {
                branch_name: "feat/auth".into(),
                is_current: false,
                pull_request_number: Some(101),
                line: "├── * feat/auth (#101)".into(),
            },
            StackTreeRow {
                branch_name: "feat/auth-ui".into(),
                is_current: true,
                pull_request_number: None,
                line: "│   └── \u{1b}[32m✓\u{1b}[0m \u{1b}[32mfeat/auth-ui\u{1b}[0m".into(),
            },
            StackTreeRow {
                branch_name: "feat/billing".into(),
                is_current: false,
                pull_request_number: None,
                line: "└── * feat/billing".into(),
            },
        ]
    );
}

#[test]
fn omits_root_row_when_view_is_filtered_to_main_branch() {
    assert_eq!(
        stack_tree_rows(&TreeView {
            root_label: None,
            roots: vec![TreeNode {
                branch_name: "feat/auth".into(),
                is_current: false,
                pull_request_number: None,
                children: vec![],
            }],
            current_branch_name: Some("main".into()),
            is_current_visible: false,
            current_branch_suffix: None,
        }),
        vec![StackTreeRow {
            branch_name: "feat/auth".into(),
            is_current: false,
            pull_request_number: None,
            line: "└── * feat/auth".into(),
        }]
    );
}
