use vstd::prelude::*;

use crate::clean_types::{CleanEvent, CleanPlan};
use crate::restack::RestackPreview;
use crate::summary::{format_restacked_branches, join_sections, restacked_section};
use crate::sync_render::{clean_event_status, status_from_clean_event, RemotePushActionKind, SyncStatus};
use crate::text::{decimal_digits, join, join_spec, push_decimal, push_str, push_string, str_equal, to_owned_string, views};

verus! {

/// A branch on a remote.
#[derive(Debug, Clone, PartialEq, Eq)]
pub struct RemotePushTarget {
    pub remote_name: String,
    pub branch_name: String,
}

/// One update of a branch on its remote.
#[derive(Debug, Clone, PartialEq, Eq)]
pub struct RemotePushAction {
    pub target: RemotePushTarget,
    pub kind: RemotePushActionKind,
}

/// The updates of remote branches a sync proposes.
#[derive(Debug, Clone, PartialEq, Eq)]
pub struct RemotePushPlan {
    pub actions: Vec<RemotePushAction>,
}

/// How the remote updates went: those done, the one that failed and what it printed.
#[derive(Debug, Clone, PartialEq, Eq)]
pub struct RemotePushOutcome {
    pub pushed_actions: Vec<RemotePushAction>,
    pub failed_action: Option<RemotePushAction>,
    pub failure_output: Option<String>,
}

/// A pull request whose base a sync moved to the branch's new parent.
#[derive(Debug, Clone, PartialEq, Eq)]
pub struct PullRequestUpdateAction {
    pub branch_name: String,
    pub pull_request_number: u64,
    pub new_base_branch_name: String,
}

/// A pull request a sync found closed with its base and reopened on a new base.
#[derive(Debug, Clone, PartialEq, Eq)]
pub struct PullRequestRepair {
    pub branch_name: String,
    pub pull_request_number: u64,
    pub old_base_branch_name: String,
    pub new_base_branch_name: String,
}

/// What a full sync did locally, as its summary reads it.
#[derive(Debug)]
pub struct FullSyncOutcome {
    pub repaired_pull_requests: Vec<PullRequestRepair>,
    pub deleted_branches: Vec<String>,
    pub restacked_branches: Vec<RestackPreview>,
    pub cleanup_plan: CleanPlan,
}

/// The verb of a proposed remote update.
pub open spec fn plan_verb(k: RemotePushActionKind) -> Seq<char> {
    match k {
        RemotePushActionKind::Create => "create"@,
        RemotePushActionKind::Update => "push"@,
        RemotePushActionKind::ForceUpdate => "force-push"@,
    }
}

/// The verb of a remote update done.
pub open spec fn done_verb(k: RemotePushActionKind) -> Seq<char> {
    match k {
        RemotePushActionKind::Create => "created"@,
        RemotePushActionKind::Update => "pushed"@,
        RemotePushActionKind::ForceUpdate => "force-pushed"@,
    }
}

/// `- <verb> <branch> on <remote>`.
pub open spec fn push_line(verb: Seq<char>, a: RemotePushAction) -> Seq<char> {
    "- "@ + verb + " "@ + a.target.branch_name@ + " on "@ + a.target.remote_name@
}

/// The lines of a list of remote updates under a heading, with the proposed or the past verb.
pub open spec fn push_lines(heading: Seq<char>, actions: Seq<RemotePushAction>, done: bool) -> Seq<Seq<char>> {
    seq![heading] + Seq::new(
        actions.len(),
        |i: int| push_line(if done { done_verb(actions[i].kind) } else { plan_verb(actions[i].kind) }, actions[i]),
    )
}

fn push_verb(out: &mut String, kind: RemotePushActionKind, done: bool)
    ensures
        final(out)@ == old(out)@ + if done {
            done_verb(kind)
        } else {
            plan_verb(kind)
        },
{
    match kind {
        RemotePushActionKind::Create => push_str(out, if done { "created" } else { "create" }),
        RemotePushActionKind::Update => push_str(out, if done { "pushed" } else { "push" }),
        RemotePushActionKind::ForceUpdate => push_str(out, if done { "force-pushed" } else { "force-push" }),
    }
}

fn push_action_lines(heading: &str, actions: &Vec<RemotePushAction>, done: bool) -> (r: Vec<String>)
    ensures
        views(r@) == push_lines(heading@, actions@, done),
{
    let mut lines: Vec<String> = Vec::new();
    push_string(&mut lines, to_owned_string(heading));
    let mut i: usize = 0;
    while i < actions.len()
        invariant
            i <= actions.len(),
            views(lines@) == push_lines(heading@, actions@.take(i as int), done),
        decreases actions.len() - i,
    {
        let a = &actions[i];
        let mut line = to_owned_string("- ");
        push_verb(&mut line, a.kind, done);
        push_str(&mut line, " ");
        push_str(&mut line, a.target.branch_name.as_str());
        push_str(&mut line, " on ");
        push_str(&mut line, a.target.remote_name.as_str());
        push_string(&mut lines, line);
        proof {
            assert(actions@.take(i as int + 1) =~= actions@.take(i as int).push(actions@[i as int]));
            assert(push_lines(heading@, actions@.take(i as int + 1), done) =~= push_lines(
                heading@,
                actions@.take(i as int),
                done,
            ).push(
                push_line(
                    if done {
                        done_verb(actions@[i as int].kind)
                    } else {
                        plan_verb(actions@[i as int].kind)
                    },
                    actions@[i as int],
                ),
            ));
        }
        i = i + 1;
    }
    proof {
        assert(actions@.take(actions@.len() as int) =~= actions@);
    }
    lines
}

/// The remote updates a sync proposes, one line each under a heading.
pub fn format_remote_push_plan(plan: &RemotePushPlan) -> (r: String)
    ensures
        r@ == join_spec(push_lines("Remote branches to update:"@, plan.actions@, false), "\n"@),
{
    join(&push_action_lines("Remote branches to update:", &plan.actions, false), "\n")
}

/// The remote updates done, under the given heading; nothing when none was done.
pub fn format_partial_remote_push_output(header: &str, outcome: &RemotePushOutcome) -> (r: String)
    ensures
        r@ == if outcome.pushed_actions@.len() == 0 {
            Seq::<char>::empty()
        } else {
            join_spec(push_lines(header@, outcome.pushed_actions@, true), "\n"@)
        },
{
    if outcome.pushed_actions.len() == 0 {
        return String::new();
    }
    join(&push_action_lines(header, &outcome.pushed_actions, true), "\n")
}

/// The remote updates done after all of them went through.
pub fn format_remote_push_success_output(outcome: &RemotePushOutcome) -> (r: String)
    ensures
        r@ == if outcome.pushed_actions@.len() == 0 {
            Seq::<char>::empty()
        } else {
            join_spec(push_lines("Updated remote branches:"@, outcome.pushed_actions@, true), "\n"@)
        },
{
    format_partial_remote_push_output("Updated remote branches:", outcome)
}

/// `- retargeted #<number> for <branch> to <base>`.
pub open spec fn update_line(a: PullRequestUpdateAction) -> Seq<char> {
    "- retargeted #"@ + decimal_digits(a.pull_request_number as nat) + " for "@ + a.branch_name@ + " to "@
        + a.new_base_branch_name@
}

/// The pull requests a sync retargeted, under a heading; nothing when there are none.
pub open spec fn update_text(us: Seq<PullRequestUpdateAction>) -> Seq<char> {
    if us.len() == 0 {
        Seq::empty()
    } else {
        join_spec(seq!["Updated pull requests:"@] + Seq::new(us.len(), |i: int| update_line(us[i])), "\n"@)
    }
}

/// The pull requests a sync retargeted.
pub fn format_pull_request_update_success_output(updated_pull_requests: &Vec<PullRequestUpdateAction>) -> (r: String)
    ensures
        r@ == update_text(updated_pull_requests@),
{
    if updated_pull_requests.len() == 0 {
        return String::new();
    }
    let us = updated_pull_requests;
    let mut lines: Vec<String> = Vec::new();
    push_string(&mut lines, to_owned_string("Updated pull requests:"));
    let mut i: usize = 0;
    while i < us.len()
        invariant
            i <= us.len(),
            views(lines@) == seq!["Updated pull requests:"@] + Seq::new(i as nat, |j: int| update_line(us@[j])),
        decreases us.len() - i,
    {
        let mut line = to_owned_string("- retargeted #");
        push_decimal(&mut line, us[i].pull_request_number);
        push_str(&mut line, " for ");
        push_str(&mut line, us[i].branch_name.as_str());
        push_str(&mut line, " to ");
        push_str(&mut line, us[i].new_base_branch_name.as_str());
        push_string(&mut lines, line);
        proof {
            assert(Seq::new((i + 1) as nat, |j: int| update_line(us@[j])) =~= Seq::new(
                i as nat,
                |j: int| update_line(us@[j]),
            ).push(update_line(us@[i as int])));
        }
        i = i + 1;
    }
    join(&lines, "\n")
}

/// `- <branch> (#<number>): reopened as draft and retargeted from <old> to <new>`.
pub open spec fn repair_line(p: PullRequestRepair) -> Seq<char> {
    "- "@ + p.branch_name@ + " (#"@ + decimal_digits(p.pull_request_number as nat)
        + "): reopened as draft and retargeted from "@ + p.old_base_branch_name@ + " to "@
        + p.new_base_branch_name@
}

/// The section of the pull requests a sync recovered, when there are any.
pub open spec fn repaired_section(ps: Seq<PullRequestRepair>) -> Seq<Seq<char>> {
    if ps.len() == 0 {
        Seq::empty()
    } else {
        seq![join_spec(seq!["Recovered pull requests:"@] + Seq::new(ps.len(), |i: int| repair_line(ps[i])), "\n"@)]
    }
}

/// The section of the branches deleted locally that a sync stopped tracking, when there are any.
pub open spec fn deleted_section(names: Seq<Seq<char>>) -> Seq<Seq<char>> {
    if names.len() == 0 {
        Seq::empty()
    } else {
        seq![
            join_spec(
                seq!["Deleted locally and no longer tracked by dagger:"@] + Seq::new(
                    names.len(),
                    |i: int| "- "@ + names[i],
                ),
                "\n"@,
            ),
        ]
    }
}

/// What a full sync reports of its local work: the pull requests recovered, the branches no
/// longer tracked and the rebases, or that the stacks were already in sync when it did nothing
/// and has nothing to clean.
pub open spec fn full_sync_text(
    repaired: Seq<PullRequestRepair>,
    deleted: Seq<Seq<char>>,
    restacked: Seq<RestackPreview>,
    cleanup_candidates: nat,
) -> Seq<char> {
    let sections = repaired_section(repaired) + deleted_section(deleted) + restacked_section(restacked);
    if sections.len() == 0 && cleanup_candidates == 0 {
        "Local stacks are already in sync."@
    } else {
        join_spec(sections, "\n\n"@)
    }
}

fn repaired_block(ps: &Vec<PullRequestRepair>) -> (r: String)
    requires
        ps@.len() > 0,
    ensures
        seq![r@] == repaired_section(ps@),
{
    let mut lines: Vec<String> = Vec::new();
    push_string(&mut lines, to_owned_string("Recovered pull requests:"));
    let mut i: usize = 0;
    while i < ps.len()
        invariant
            i <= ps.len(),
            views(lines@) == seq!["Recovered pull requests:"@] + Seq::new(i as nat, |j: int| repair_line(ps@[j])),
        decreases ps.len() - i,
    {
        let p = &ps[i];
        let mut line = to_owned_string("- ");
        push_str(&mut line, p.branch_name.as_str());
        push_str(&mut line, " (#");
        push_decimal(&mut line, p.pull_request_number);
        push_str(&mut line, "): reopened as draft and retargeted from ");
        push_str(&mut line, p.old_base_branch_name.as_str());
        push_str(&mut line, " to ");
        push_str(&mut line, p.new_base_branch_name.as_str());
        push_string(&mut lines, line);
        proof {
            assert(Seq::new((i + 1) as nat, |j: int| repair_line(ps@[j])) =~= Seq::new(
                i as nat,
                |j: int| repair_line(ps@[j]),
            ).push(repair_line(ps@[i as int])));
        }
        i = i + 1;
    }
    join(&lines, "\n")
}

fn deleted_block(names: &Vec<String>) -> (r: String)
    requires
        names@.len() > 0,
    ensures
        seq![r@] == deleted_section(views(names@)),
{
    let mut lines: Vec<String> = Vec::new();
    push_string(&mut lines, to_owned_string("Deleted locally and no longer tracked by dagger:"));
    let mut i: usize = 0;
    while i < names.len()
        invariant
            i <= names.len(),
            views(lines@) == seq!["Deleted locally and no longer tracked by dagger:"@] + Seq::new(
                i as nat,
                |j: int| "- "@ + views(names@)[j],
            ),
        decreases names.len() - i,
    {
        let mut line = to_owned_string("- ");
        push_str(&mut line, names[i].as_str());
        push_string(&mut lines, line);
        proof {
            assert(Seq::new((i + 1) as nat, |j: int| "- "@ + views(names@)[j]) =~= Seq::new(
                i as nat,
                |j: int| "- "@ + views(names@)[j],
            ).push("- "@ + views(names@)[i as int]));
        }
        i = i + 1;
    }
    join(&lines, "\n")
}

/// The summary of what a full sync did locally.
pub fn format_full_sync_summary(outcome: &FullSyncOutcome) -> (r: String)
    ensures
        r@ == full_sync_text(
            outcome.repaired_pull_requests@,
            views(outcome.deleted_branches@),
            outcome.restacked_branches@,
            outcome.cleanup_plan.candidates@.len(),
        ),
{
    let mut sections: Vec<String> = Vec::new();
    if outcome.repaired_pull_requests.len() > 0 {
        push_string(&mut sections, repaired_block(&outcome.repaired_pull_requests));
    }
    proof {
        assert(views(sections@) =~= repaired_section(outcome.repaired_pull_requests@));
    }
    if outcome.deleted_branches.len() > 0 {
        push_string(&mut sections, deleted_block(&outcome.deleted_branches));
    }
    proof {
        assert(views(sections@) =~= repaired_section(outcome.repaired_pull_requests@) + deleted_section(
            views(outcome.deleted_branches@),
        ));
    }
    if outcome.restacked_branches.len() > 0 {
        push_string(&mut sections, format_restacked_branches(&outcome.restacked_branches));
    }
    proof {
        assert(views(sections@) =~= repaired_section(outcome.repaired_pull_requests@) + deleted_section(
            views(outcome.deleted_branches@),
        ) + restacked_section(outcome.restacked_branches@));
    }
    if sections.len() == 0 && outcome.cleanup_plan.candidates.len() == 0 {
        return to_owned_string("Local stacks are already in sync.");
    }
    join_sections(&sections)
}

/// The status a cleanup during a sync starts with: the first rebase of its first candidate, or
/// else the removal of that candidate.
pub open spec fn initial_cleanup_status_spec(plan: CleanPlan) -> Option<SyncStatus> {
    if plan.candidates@.len() == 0 {
        None
    } else {
        let c = plan.candidates@[0];
        if c.restack_plan@.len() > 0 {
            Some(
                SyncStatus::RestackingBranch {
                    branch_name: c.restack_plan@[0].branch_name,
                    onto_branch: c.restack_plan@[0].onto_branch,
                },
            )
        } else if c.reason is DeletedLocally {
            Some(SyncStatus::ArchivingBranch { branch_name: c.branch_name })
        } else {
            Some(SyncStatus::DeletingBranch { branch_name: c.branch_name })
        }
    }
}

/// The status a cleanup during a sync starts with.
pub fn initial_cleanup_status(plan: &CleanPlan) -> (r: Option<SyncStatus>)
    ensures
        r == initial_cleanup_status_spec(*plan),
{
    if plan.candidates.len() == 0 {
        return None;
    }
    let c = &plan.candidates[0];
    if c.restack_plan.len() > 0 {
        return Some(
            SyncStatus::RestackingBranch {
                branch_name: c.restack_plan[0].branch_name.clone(),
                onto_branch: c.restack_plan[0].onto_branch.clone(),
            },
        );
    }
    if c.is_deleted_locally() {
        Some(SyncStatus::ArchivingBranch { branch_name: c.branch_name.clone() })
    } else {
        Some(SyncStatus::DeletingBranch { branch_name: c.branch_name.clone() })
    }
}

/// Whether two statuses show the same thing: the same kind with the same texts.
pub open spec fn same_status(a: SyncStatus, b: SyncStatus) -> bool {
    match (a, b) {
        (SyncStatus::RestackingBranch { branch_name: x, onto_branch: y }, SyncStatus::RestackingBranch {
            branch_name: u,
            onto_branch: v,
        }) => x@ == u@ && y@ == v@,
        (SyncStatus::DeletingBranch { branch_name: x }, SyncStatus::DeletingBranch { branch_name: u }) => x@ == u@,
        (SyncStatus::ArchivingBranch { branch_name: x }, SyncStatus::ArchivingBranch { branch_name: u }) => x@
            == u@,
        _ => false,
    }
}

fn same_cleanup_status(a: &SyncStatus, b: &SyncStatus) -> (r: bool)
    ensures
        r == same_status(*a, *b),
{
    match (a, b) {
        (SyncStatus::RestackingBranch { branch_name: x, onto_branch: y }, SyncStatus::RestackingBranch {
            branch_name: u,
            onto_branch: v,
        }) => str_equal(x.as_str(), u.as_str()) && str_equal(y.as_str(), v.as_str()),
        (SyncStatus::DeletingBranch { branch_name: x }, SyncStatus::DeletingBranch { branch_name: u }) => str_equal(
            x.as_str(),
            u.as_str(),
        ),
        (SyncStatus::ArchivingBranch { branch_name: x }, SyncStatus::ArchivingBranch { branch_name: u }) => str_equal(
            x.as_str(),
            u.as_str(),
        ),
        _ => false,
    }
}

/// Moves a sync's status bar to what a cleanup step shows, restarting its throbber; a step
/// that shows nothing new leaves it. Says whether it changed.
pub fn apply_cleanup_status(status: &mut Option<SyncStatus>, status_frame_index: &mut usize, event: &CleanEvent) -> (changed:
    bool)
    ensures
        match clean_event_status(*event) {
            None => !changed && *final(status) == *old(status) && *final(status_frame_index) == *old(
                status_frame_index,
            ),
            Some(next) => if old(status).is_some() && same_status(old(status).unwrap(), next) {
                !changed && *final(status) == *old(status) && *final(status_frame_index) == *old(status_frame_index)
            } else {
                changed && *final(status) == Some(next) && *final(status_frame_index) == 0
            },
        },
{
    let next = match status_from_clean_event(event) {
        Some(n) => n,
        None => {
            return false;
        },
    };
    let same = match &*status {
        Some(current) => same_cleanup_status(current, &next),
        None => false,
    };
    if same {
        return false;
    }
    *status = Some(next);
    *status_frame_index = 0;
    true
}

} // verus!
