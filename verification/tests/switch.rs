use dig_stack::ansi::{head_text, Accent};
use dig_stack::switch::{
    frame_line_count, parse_scripted_event, parse_scripted_events, run_scripted, terminal_frame_text, visible_range,
    InputEvent, InteractiveOutcome, InteractiveState, MAX_VISIBLE_ROWS,
};
use dig_stack::tree_view::{TreeLabel, TreeNode, TreeView};

#[test]
fn starts_on_current_tracked_branch() {
    let state = InteractiveState::new(&sample_view(Some("feat/auth-ui")));

    assert_eq!(state.selected_branch_name(), "feat/auth-ui");
    assert_eq!(state.untracked_current_branch, None);
    let rendered = state.render();
    assert!(rendered.contains(&Accent::HeadMarker.paint_ansi(&head_text())));
    assert!(rendered.contains("↑/↓ or j/k move • Enter switch • Esc/q cancel"));
    assert!(rendered.contains(&Accent::HeadMarker.ansi()));
}

#[test]
fn starts_on_trunk_when_current_branch_is_untracked() {
    let state = InteractiveState::new(&sample_view(Some("scratch")));

    assert_eq!(state.selected_branch_name(), "main");
    assert_eq!(state.untracked_current_branch.as_deref(), Some("scratch"));
    assert!(
        state
            .render()
            .contains("Current branch 'scratch' is untracked")
    );
}

#[test]
fn clamps_navigation_to_top_and_bottom() {
    let mut state = InteractiveState::new(&sample_view(Some("main")));

    state.apply_event(InputEvent::Up);
    assert_eq!(state.selected_branch_name(), "main");

    for _ in 0..10 {
        state.apply_event(InputEvent::Down);
    }
    assert_eq!(state.selected_branch_name(), "feat/billing");
}

#[test]
fn supports_arrow_and_vim_style_vertical_navigation() {
    let mut state = InteractiveState::new(&sample_view(Some("main")));

    state.apply_event(InputEvent::Down);
    assert_eq!(state.selected_branch_name(), "feat/auth");

    state.apply_event(InputEvent::Up);
    assert_eq!(state.selected_branch_name(), "main");
}

#[test]
fn confirms_or_cancels_selection() {
    let mut state = InteractiveState::new(&sample_view(Some("main")));
    state.apply_event(InputEvent::Down);

    assert_eq!(
        state.apply_event(InputEvent::Confirm),
        Some(InteractiveOutcome::Selected("feat/auth".into()))
    );
    assert_eq!(
        InteractiveState::new(&sample_view(Some("main"))).apply_event(InputEvent::Cancel),
        Some(InteractiveOutcome::Cancelled)
    );
}

#[test]
fn limits_rendered_rows_to_viewport() {
    let mut rows = Vec::new();
    for index in 0..20 {
        rows.push(TreeNode {
            branch_name: format!("feat/{index}"),
            is_current: index == 10,
            pull_request_number: None,
            children: vec![],
        });
    }

    let state = InteractiveState::new(&TreeView {
        root_label: Some(TreeLabel {
            branch_name: "main".into(),
            is_current: false,
            pull_request_number: None,
        }),
        roots: rows,
        current_branch_name: Some("feat/10".into()),
        is_current_visible: true,
        current_branch_suffix: None,
    });

    let rendered = state.render();
    let branch_lines = rendered
        .lines()
        .take_while(|line| !line.is_empty())
        .collect::<Vec<_>>();

    assert_eq!(branch_lines.len(), 12);
    assert!(branch_lines.iter().any(|line| line.contains("feat/10")));
}

#[test]
fn centers_selected_row_within_visible_range_when_possible() {
    assert_eq!(visible_range(20, 0, 12), 0..12);
    assert_eq!(visible_range(20, 10, 12), 4..16);
    assert_eq!(visible_range(20, 19, 12), 8..20);
}

#[test]
fn terminal_output_uses_carriage_return_line_breaks() {
    assert_eq!(terminal_frame_text("one\ntwo"), "one\r\ntwo");
}

fn sample_view(current_branch_name: Option<&str>) -> TreeView {
    TreeView {
        root_label: Some(TreeLabel {
            branch_name: "main".into(),
            is_current: current_branch_name == Some("main"),
            pull_request_number: None,
        }),
        roots: vec![
            TreeNode {
                branch_name: "feat/auth".into(),
                is_current: current_branch_name == Some("feat/auth"),
                pull_request_number: Some(101),
                children: vec![TreeNode {
                    branch_name: "feat/auth-ui".into(),
                    is_current: current_branch_name == Some("feat/auth-ui"),
                    pull_request_number: Some(102),
                    children: vec![],
                }],
            },
            TreeNode {
                branch_name: "feat/billing".into(),
                is_current: current_branch_name == Some("feat/billing"),
                pull_request_number: None,
                children: vec![],
            },
        ],
        current_branch_name: current_branch_name.map(str::to_string),
        is_current_visible: current_branch_name != Some("scratch"),
        current_branch_suffix: None,
    }
}

#[test]
fn counts_frame_lines_at_least_one() {
    assert_eq!(frame_line_count(""), 1);
    assert_eq!(frame_line_count("a\nb"), 2);
    assert_eq!(MAX_VISIBLE_ROWS, 12);
}

#[test]
fn runs_scripted_selection() {
    let events = parse_scripted_events("down,enter").unwrap();
    assert_eq!(
        run_scripted(&sample_view(Some("main")), &events).unwrap(),
        InteractiveOutcome::Selected("feat/auth".into())
    );
    assert!(parse_scripted_event("sideways").is_err());
}
