use dig_stack::pending::{
    resume_step, PendingCommitOperation, PendingOperationKind, PendingOrphanOperation, ResumeStep,
};

fn orphan() -> PendingOperationKind {
    PendingOperationKind::Orphan(PendingOrphanOperation {
        original_branch: "main".into(),
        branch_name: "feat/a".into(),
        parent_branch_name: "main".into(),
        node_id: 1,
    })
}

fn commit() -> PendingOperationKind {
    PendingOperationKind::Commit(PendingCommitOperation {
        current_branch: "feat/a".into(),
        summary_line: None,
        recent_commits: vec![],
    })
}

#[test]
fn paused_restack_stops_every_kind_but_cleanup() {
    assert_eq!(resume_step(&orphan(), true), ResumeStep::Paused);
    assert_eq!(resume_step(&commit(), true), ResumeStep::Paused);
}

#[test]
fn finished_restack_goes_on_by_kind() {
    assert_eq!(resume_step(&orphan(), false), ResumeStep::CompleteOrphan);
    assert_eq!(resume_step(&commit(), false), ResumeStep::ReportRestacked);
}
