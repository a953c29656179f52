use vstd::prelude::*;

use crate::ansi::{
    archived_marker, archived_text, deleted_marker, deleted_text, paint, paint_struck, success_marker, success_text,
    throbber_frame, throbber_text, Accent,
};
use crate::clean_types::{CleanEvent, CleanPlan};
use crate::layout::{
    label_forest, label_tree, lemma_label_forest_push, render_tree, tree_text, LabelTree,
    LabeledTree,
};
use crate::pending::PendingSyncPhase;
use crate::restack::RestackPreview;
use crate::text::{decimal_digits, push_decimal, push_str, to_owned_string};
use crate::sync_rows::{
    advance_labels, any_in_flight_upto, lemma_tick_labels, plain_upto,
    event_changes, lemma_pending_rows, lemma_sync_event_rows, lemma_tick_rows, same_but_statuses, shows_in_flight,
    sync_rows, ticked_rows, tree_rows_from,
};
use crate::tree_view::{branch_text, format_branch_text, TreeNode, TreeView};

verus! {

/// How a branch is pushed to its remote.
#[derive(Debug, Clone, Copy, PartialEq, Eq, Structural)]
pub enum RemotePushActionKind {
    Create,
    Update,
    ForceUpdate,
}

/// What a sync is doing, as its status bar says.
#[derive(Debug, Clone, PartialEq, Eq)]
pub enum SyncStatus {
    FetchingRemotes,
    RepairingClosedPullRequests,
    RemovingMergedLocalBranches,
    ReconcilingDeletedLocalBranch { step_branch_name: String },
    PreparingRestack { step_branch_name: String },
    RestackingBranch { branch_name: String, onto_branch: String },
    InspectingPullRequestUpdates,
    UpdatingPullRequestBase { branch_name: String, pull_request_number: u64 },
    PushingRemoteBranch { branch_name: String, remote_name: String, kind: RemotePushActionKind },
    DeletingBranch { branch_name: String },
    ArchivingBranch { branch_name: String },
}

/// A stage of a sync that brings its own tree display.
#[derive(Debug)]
pub enum SyncStage {
    LocalSync {
        phase: PendingSyncPhase,
        step_branch_name: String,
        active_branch_name: String,
        deleted_branches: Vec<String>,
        restacked_branches: Vec<RestackPreview>,
    },
    CleanupResume {
        plan: CleanPlan,
        active_branch_name: String,
        untracked_branches: Vec<String>,
        deleted_branches: Vec<String>,
        restacked_branches: Vec<RestackPreview>,
    },
}

/// A step of a running sync, as the progress display sees it.
#[derive(Debug)]
pub enum SyncEvent {
    StatusChanged(SyncStatus),
    StageStarted(SyncStage),
    BranchArchived { branch_name: String },
    RestackStarted { branch_name: String, onto_branch: String },
    RestackProgress {
        branch_name: String,
        onto_branch: String,
        current_commit: usize,
        total_commits: usize,
    },
    RestackCompleted { branch_name: String, onto_branch: String },
    Cleanup(CleanEvent),
}

/// The words a remote push starts with.
pub open spec fn push_kind_text(k: RemotePushActionKind) -> Seq<char> {
    match k {
        RemotePushActionKind::Create => "Creating remote branch"@,
        RemotePushActionKind::Update => "Pushing"@,
        RemotePushActionKind::ForceUpdate => "Force-pushing"@,
    }
}

/// The text of the status bar.
pub open spec fn status_text(s: SyncStatus) -> Seq<char> {
    match s {
        SyncStatus::FetchingRemotes => "Fetching remotes"@,
        SyncStatus::RepairingClosedPullRequests => "Repairing closed pull requests"@,
        SyncStatus::RemovingMergedLocalBranches => "Removing merged local branches"@,
        SyncStatus::ReconcilingDeletedLocalBranch { step_branch_name } => "Reconciling deleted local branch "@
            + step_branch_name@,
        SyncStatus::PreparingRestack { step_branch_name } => "Preparing restack for "@
            + step_branch_name@,
        SyncStatus::RestackingBranch { branch_name, onto_branch } => "Restacking "@ + branch_name@
            + " onto "@ + onto_branch@,
        SyncStatus::InspectingPullRequestUpdates => "Inspecting pull request updates"@,
        SyncStatus::UpdatingPullRequestBase { branch_name, pull_request_number } => "Updating pull request #"@
            + decimal_digits(pull_request_number as nat) + " base for "@ + branch_name@,
        SyncStatus::PushingRemoteBranch { branch_name, remote_name, kind } => push_kind_text(kind)
            + " "@ + branch_name@ + " on "@ + remote_name@,
        SyncStatus::DeletingBranch { branch_name } => "Deleting "@ + branch_name@,
        SyncStatus::ArchivingBranch { branch_name } => "Archiving "@ + branch_name@,
    }
}

/// The text of the status bar.
pub fn format_status_text(status: &SyncStatus) -> (r: String)
    ensures
        r@ == status_text(*status),
{
    match status {
        SyncStatus::FetchingRemotes => to_owned_string("Fetching remotes"),
        SyncStatus::RepairingClosedPullRequests => to_owned_string("Repairing closed pull requests"),
        SyncStatus::RemovingMergedLocalBranches => to_owned_string("Removing merged local branches"),
        SyncStatus::ReconcilingDeletedLocalBranch { step_branch_name } => {
            let mut r = to_owned_string("Reconciling deleted local branch ");
            push_str(&mut r, step_branch_name.as_str());
            r
        },
        SyncStatus::PreparingRestack { step_branch_name } => {
            let mut r = to_owned_string("Preparing restack for ");
            push_str(&mut r, step_branch_name.as_str());
            r
        },
        SyncStatus::RestackingBranch { branch_name, onto_branch } => {
            let mut r = to_owned_string("Restacking ");
            push_str(&mut r, branch_name.as_str());
            push_str(&mut r, " onto ");
            push_str(&mut r, onto_branch.as_str());
            r
        },
        SyncStatus::InspectingPullRequestUpdates => to_owned_string("Inspecting pull request updates"),
        SyncStatus::UpdatingPullRequestBase { branch_name, pull_request_number } => {
            let mut r = to_owned_string("Updating pull request #");
            push_decimal(&mut r, *pull_request_number);
            push_str(&mut r, " base for ");
            push_str(&mut r, branch_name.as_str());
            r
        },
        SyncStatus::PushingRemoteBranch { branch_name, remote_name, kind } => {
            let mut r = match kind {
                RemotePushActionKind::Create => to_owned_string("Creating remote branch"),
                RemotePushActionKind::Update => to_owned_string("Pushing"),
                RemotePushActionKind::ForceUpdate => to_owned_string("Force-pushing"),
            };
            push_str(&mut r, " ");
            push_str(&mut r, branch_name.as_str());
            push_str(&mut r, " on ");
            push_str(&mut r, remote_name.as_str());
            r
        },
        SyncStatus::DeletingBranch { branch_name } => {
            let mut r = to_owned_string("Deleting ");
            push_str(&mut r, branch_name.as_str());
            r
        },
        SyncStatus::ArchivingBranch { branch_name } => {
            let mut r = to_owned_string("Archiving ");
            push_str(&mut r, branch_name.as_str());
            r
        },
    }
}

/// The status bar: the status in orange, and the throbber frame after it.
pub open spec fn status_header(s: SyncStatus, frame_index: nat) -> Seq<char> {
    paint(Accent::SyncInFlight, status_text(s)) + " "@ + paint(
        Accent::SyncInFlight,
        throbber_frame(frame_index % 4),
    )
}

/// Draws the status bar with the throbber at the given frame.
pub fn render_status_header(status: &SyncStatus, frame_index: usize) -> (r: String)
    ensures
        r@ == status_header(*status, frame_index as nat),
{
    let label = format_status_text(status);
    let mut r = Accent::SyncInFlight.paint_ansi(label.as_str());
    push_str(&mut r, " ");
    push_str(&mut r, Accent::SyncInFlight.paint_ansi(throbber_text(frame_index % 4).as_str()).as_str());
    proof {
        assert((frame_index % 4) as nat % 4 == frame_index as nat % 4);
    }
    r
}

/// A frame of the sync display: the status bar, if any, and the tree body under it after a
/// blank line; without a status, the body alone.
pub open spec fn active_frame(status: Option<(SyncStatus, nat)>, body: Option<Seq<char>>) -> Seq<char> {
    match status {
        None => match body {
            Some(b) => b,
            None => Seq::<char>::empty(),
        },
        Some((s, f)) => match body {
            Some(b) => if b.len() > 0 {
                status_header(s, f) + "\n\n"@ + b
            } else {
                status_header(s, f)
            },
            None => status_header(s, f),
        },
    }
}

/// Draws a frame of the sync display.
pub fn render_active_frame(status: Option<(&SyncStatus, usize)>, body: Option<&str>) -> (r: String)
    ensures
        r@ == active_frame(
            match status {
                Some((s, f)) => Some((*s, f as nat)),
                None => None,
            },
            match body {
                Some(b) => Some(b@),
                None => None,
            },
        ),
{
    match status {
        None => match body {
            Some(b) => to_owned_string(b),
            None => String::new(),
        },
        Some((s, f)) => {
            let mut header = render_status_header(s, f);
            match body {
                Some(b) => {
                    if b.unicode_len() > 0 {
                        push_str(&mut header, "\n\n");
                        push_str(&mut header, b);
                    }
                    header
                },
                None => header,
            }
        },
    }
}

/// The status bar a cleanup step shows during a sync, if it shows one.
pub open spec fn clean_event_status(e: CleanEvent) -> Option<SyncStatus> {
    match e {
        CleanEvent::RebaseStarted { branch_name, onto_branch } => Some(
            SyncStatus::RestackingBranch { branch_name, onto_branch },
        ),
        CleanEvent::RebaseProgress { branch_name, onto_branch, .. } => Some(
            SyncStatus::RestackingBranch { branch_name, onto_branch },
        ),
        CleanEvent::DeleteStarted { branch_name } => Some(SyncStatus::DeletingBranch { branch_name }),
        CleanEvent::ArchiveStarted { branch_name } => Some(SyncStatus::ArchivingBranch { branch_name }),
        _ => None,
    }
}

/// The status bar a cleanup step shows during a sync, if it shows one.
pub fn status_from_clean_event(event: &CleanEvent) -> (r: Option<SyncStatus>)
    ensures
        r == clean_event_status(*event),
{
    match event {
        CleanEvent::RebaseStarted { branch_name, onto_branch } => Some(
            SyncStatus::RestackingBranch { branch_name: branch_name.clone(), onto_branch: onto_branch.clone() },
        ),
        CleanEvent::RebaseProgress { branch_name, onto_branch, .. } => Some(
            SyncStatus::RestackingBranch { branch_name: branch_name.clone(), onto_branch: onto_branch.clone() },
        ),
        CleanEvent::DeleteStarted { branch_name } => Some(
            SyncStatus::DeletingBranch { branch_name: branch_name.clone() },
        ),
        CleanEvent::ArchiveStarted { branch_name } => Some(
            SyncStatus::ArchivingBranch { branch_name: branch_name.clone() },
        ),
        _ => None,
    }
}

/// How a branch is shown during a sync.
#[derive(Debug, Clone, Copy, PartialEq, Eq, Structural)]
pub enum SyncBranchStatus {
    Pending,
    InFlight { frame_index: usize, current_commit: Option<usize>, total_commits: Option<usize> },
    Succeeded,
    Deleted,
    Archived,
}

/// A branch being rebased, at the first throbber frame and without progress yet.
pub open spec fn start_in_flight() -> SyncBranchStatus {
    SyncBranchStatus::InFlight { frame_index: 0, current_commit: None, total_commits: None }
}

/// A branch being rebased with the given progress, its throbber one frame further.
pub open spec fn advanced_status(s: SyncBranchStatus, current: usize, total: usize) -> SyncBranchStatus {
    SyncBranchStatus::InFlight {
        frame_index: match s {
            SyncBranchStatus::InFlight { frame_index, .. } => ((frame_index + 1) % 4) as usize,
            _ => 0,
        },
        current_commit: Some(current),
        total_commits: Some(total),
    }
}

/// A change of the status of one branch.
#[derive(Debug, Clone, Copy, PartialEq, Eq, Structural)]
pub enum StatusUpdate {
    Assign(SyncBranchStatus),
    Progress(usize, usize),
}

/// The status after an update.
pub open spec fn updated(s: SyncBranchStatus, u: StatusUpdate) -> SyncBranchStatus {
    match u {
        StatusUpdate::Assign(t) => t,
        StatusUpdate::Progress(c, t) => advanced_status(s, c, t),
    }
}

/// A status with the rebase under way no longer marked.
pub open spec fn cleared(s: SyncBranchStatus) -> SyncBranchStatus {
    match s {
        SyncBranchStatus::InFlight { .. } => SyncBranchStatus::Pending,
        _ => s,
    }
}

/// A status one throbber frame later, and whether it moved.
pub open spec fn ticked(s: SyncBranchStatus) -> (SyncBranchStatus, bool) {
    match s {
        SyncBranchStatus::InFlight { frame_index, current_commit, total_commits } => (
            SyncBranchStatus::InFlight {
                frame_index: ((frame_index + 1) % 4) as usize,
                current_commit,
                total_commits,
            },
            true,
        ),
        _ => (s, false),
    }
}

fn start_in_flight_status() -> (s: SyncBranchStatus)
    ensures
        s == start_in_flight(),
{
    SyncBranchStatus::InFlight { frame_index: 0, current_commit: None, total_commits: None }
}

fn apply_update(s: SyncBranchStatus, u: StatusUpdate) -> (r: SyncBranchStatus)
    ensures
        r == updated(s, u),
{
    match u {
        StatusUpdate::Assign(t) => t,
        StatusUpdate::Progress(c, t) => {
            let frame_index = match s {
                SyncBranchStatus::InFlight { frame_index, .. } => (frame_index % 4 + 1) % 4,
                _ => 0,
            };
            proof {
                if let SyncBranchStatus::InFlight { frame_index: f, .. } = s {
                    assert((f % 4 + 1) % 4 == (f + 1) % 4) by (nonlinear_arith);
                }
            }
            SyncBranchStatus::InFlight { frame_index, current_commit: Some(c), total_commits: Some(t) }
        },
    }
}

fn tick_status(s: SyncBranchStatus) -> (r: (SyncBranchStatus, bool))
    ensures
        r == ticked(s),
{
    match s {
        SyncBranchStatus::InFlight { frame_index, current_commit, total_commits } => {
            proof {
                assert((frame_index % 4 + 1) % 4 == (frame_index + 1) % 4) by (nonlinear_arith);
            }
            (
                SyncBranchStatus::InFlight {
                    frame_index: (frame_index % 4 + 1) % 4,
                    current_commit,
                    total_commits,
                },
                true,
            )
        },
        _ => (s, false),
    }
}

/// A branch of the sync display.
#[derive(Debug)]
pub struct VisualTreeNode {
    pub branch_name: String,
    pub pull_request_number: Option<u64>,
    pub status: SyncBranchStatus,
    pub children: Vec<VisualTreeNode>,
}

/// A branch of the sync display as plain values.
pub struct SyncNodeView {
    pub branch_name: Seq<char>,
    pub pull_request_number: Option<u64>,
    pub status: SyncBranchStatus,
    pub children: Seq<SyncNodeView>,
}

/// The plain value of a branch of the sync display.
pub open spec fn visual_view(n: VisualTreeNode) -> SyncNodeView
    decreases n, 0int,
{
    SyncNodeView {
        branch_name: n.branch_name@,
        pull_request_number: n.pull_request_number,
        status: n.status,
        children: visual_forest_upto(n.children@, n.children@.len() as int),
    }
}

/// The plain values of the first `k` branches of `ns`.
pub open spec fn visual_forest_upto(ns: Seq<VisualTreeNode>, k: int) -> Seq<SyncNodeView>
    decreases ns, k,
{
    if k <= 0 || k > ns.len() {
        Seq::<SyncNodeView>::empty()
    } else {
        visual_forest_upto(ns, k - 1).push(visual_view(ns[k - 1]))
    }
}

/// The plain values of branches of the sync display.
pub open spec fn visual_forest(ns: Seq<VisualTreeNode>) -> Seq<SyncNodeView> {
    visual_forest_upto(ns, ns.len() as int)
}

proof fn lemma_visual_forest_upto(ns: Seq<VisualTreeNode>, k: int)
    requires
        0 <= k <= ns.len(),
    ensures
        visual_forest_upto(ns, k).len() == k,
        forall|i: int| 0 <= i < k ==> #[trigger] visual_forest_upto(ns, k)[i] == visual_view(ns[i]),
    decreases k,
{
    if k > 0 {
        lemma_visual_forest_upto(ns, k - 1);
    }
}

pub(crate) proof fn lemma_visual_forest(ns: Seq<VisualTreeNode>)
    ensures
        visual_forest(ns).len() == ns.len(),
        forall|i: int| 0 <= i < ns.len() ==> #[trigger] visual_forest(ns)[i] == visual_view(ns[i]),
{
    lemma_visual_forest_upto(ns, ns.len() as int);
}

proof fn lemma_visual_forest_push(ns: Seq<VisualTreeNode>, n: VisualTreeNode)
    ensures
        visual_forest(ns.push(n)) == visual_forest(ns).push(visual_view(n)),
{
    lemma_visual_forest(ns);
    lemma_visual_forest(ns.push(n));
    assert(visual_forest(ns.push(n)) =~= visual_forest(ns).push(visual_view(n)));
}

proof fn lemma_visual_forest_concat(a: Seq<VisualTreeNode>, b: Seq<VisualTreeNode>)
    ensures
        visual_forest(a + b) == visual_forest(a) + visual_forest(b),
{
    lemma_visual_forest(a);
    lemma_visual_forest(b);
    lemma_visual_forest(a + b);
    assert(visual_forest(a + b) =~= visual_forest(a) + visual_forest(b));
}

/// The branches after the first branch named `name` at or after entry `i`, searched depth
/// first, got the update, and whether there was one.
pub open spec fn forest_set_from(ns: Seq<SyncNodeView>, i: int, name: Seq<char>, u: StatusUpdate) -> (
    Seq<SyncNodeView>,
    bool,
)
    decreases ns, ns.len() - i,
{
    if i < 0 || i >= ns.len() {
        (ns, false)
    } else {
        let (h, f) = node_set(ns[i], name, u);
        if f {
            (ns.update(i, h), true)
        } else {
            forest_set_from(ns, i + 1, name, u)
        }
    }
}

proof fn lemma_forest_set_unchanged(ns: Seq<SyncNodeView>, i: int, name: Seq<char>, u: StatusUpdate)
    ensures
        !forest_set_from(ns, i, name, u).1 ==> forest_set_from(ns, i, name, u).0 == ns,
    decreases ns.len() - i,
{
    if 0 <= i < ns.len() {
        lemma_forest_set_unchanged(ns, i + 1, name, u);
    }
}

/// A branch after the first branch named `name` in it, searched depth first, got the update,
/// and whether there was one.
pub open spec fn node_set(n: SyncNodeView, name: Seq<char>, u: StatusUpdate) -> (SyncNodeView, bool)
    decreases n, 0int,
{
    if n.branch_name == name {
        (SyncNodeView { status: updated(n.status, u), ..n }, true)
    } else {
        let (c, f) = forest_set_from(n.children, 0, name, u);
        if f {
            (SyncNodeView { children: c, ..n }, true)
        } else {
            (n, false)
        }
    }
}

/// A branch with every rebase under way no longer marked.
pub open spec fn clear_node(n: SyncNodeView) -> SyncNodeView
    decreases n, 0int,
{
    SyncNodeView {
        status: cleared(n.status),
        children: clear_forest_upto(n.children, n.children.len() as int),
        ..n
    }
}

/// The first `k` branches of `ns` with every rebase under way no longer marked.
pub open spec fn clear_forest_upto(ns: Seq<SyncNodeView>, k: int) -> Seq<SyncNodeView>
    decreases ns, k,
{
    if k <= 0 || k > ns.len() {
        Seq::<SyncNodeView>::empty()
    } else {
        clear_forest_upto(ns, k - 1).push(clear_node(ns[k - 1]))
    }
}

/// Branches with every rebase under way no longer marked.
pub open spec fn clear_forest(ns: Seq<SyncNodeView>) -> Seq<SyncNodeView> {
    clear_forest_upto(ns, ns.len() as int)
}

proof fn lemma_clear_forest_upto(ns: Seq<SyncNodeView>, k: int)
    requires
        0 <= k <= ns.len(),
    ensures
        clear_forest_upto(ns, k).len() == k,
        forall|i: int| 0 <= i < k ==> #[trigger] clear_forest_upto(ns, k)[i] == clear_node(ns[i]),
    decreases k,
{
    if k > 0 {
        lemma_clear_forest_upto(ns, k - 1);
    }
}

/// A branch with every throbber one frame further, and whether any moved.
pub open spec fn tick_node(n: SyncNodeView) -> (SyncNodeView, bool)
    decreases n, 0int,
{
    let (s, a) = ticked(n.status);
    let (c, b) = tick_forest_upto(n.children, n.children.len() as int);
    (SyncNodeView { status: s, children: c, ..n }, a || b)
}

/// The first `k` branches of `ns` with every throbber one frame further, and whether any moved.
pub open spec fn tick_forest_upto(ns: Seq<SyncNodeView>, k: int) -> (Seq<SyncNodeView>, bool)
    decreases ns, k,
{
    if k <= 0 || k > ns.len() {
        (Seq::<SyncNodeView>::empty(), false)
    } else {
        let (p, b) = tick_forest_upto(ns, k - 1);
        let (x, c) = tick_node(ns[k - 1]);
        (p.push(x), b || c)
    }
}

pub(crate) proof fn lemma_tick_forest_upto(ns: Seq<SyncNodeView>, k: int)
    requires
        0 <= k <= ns.len(),
    ensures
        tick_forest_upto(ns, k).0.len() == k,
        forall|i: int| 0 <= i < k ==> #[trigger] tick_forest_upto(ns, k).0[i] == tick_node(ns[i]).0,
    decreases k,
{
    if k > 0 {
        lemma_tick_forest_upto(ns, k - 1);
    }
}

/// The first `k` branches of `ns` as the final frame shows them: archived branches give way to
/// their children.
pub open spec fn prune_forest_upto(ns: Seq<SyncNodeView>, k: int) -> Seq<SyncNodeView>
    decreases ns, k,
{
    if k <= 0 || k > ns.len() {
        Seq::<SyncNodeView>::empty()
    } else {
        let n = ns[k - 1];
        let c = prune_forest_upto(n.children, n.children.len() as int);
        if n.status is Archived {
            prune_forest_upto(ns, k - 1) + c
        } else {
            prune_forest_upto(ns, k - 1).push(SyncNodeView { children: c, ..n })
        }
    }
}

/// Branches as the final frame shows them.
pub open spec fn prune_forest(ns: Seq<SyncNodeView>) -> Seq<SyncNodeView> {
    prune_forest_upto(ns, ns.len() as int)
}

fn set_in_node(node: &mut VisualTreeNode, name: &str, u: StatusUpdate) -> (found: bool)
    ensures
        (visual_view(*final(node)), found) == node_set(visual_view(*old(node)), name@, u),
    decreases *old(node), 0int,
{
    if crate::text::str_equal(node.branch_name.as_str(), name) {
        node.status = apply_update(node.status, u);
        return true;
    }
    proof {
        assert(visual_view(*node).branch_name != name@);
        assert(visual_view(*node).children == visual_forest(node.children@));
    }
    let f = set_in_forest(&mut node.children, name, u);
    proof {
        lemma_forest_set_unchanged(visual_forest(old(node).children@), 0, name@, u);
    }
    f
}

pub(crate) fn set_in_forest(nodes: &mut Vec<VisualTreeNode>, name: &str, u: StatusUpdate) -> (found: bool)
    ensures
        (visual_forest(final(nodes)@), found) == forest_set_from(visual_forest(old(nodes)@), 0, name@, u),
    decreases old(nodes)@, 1int,
{
    let ghost orig = nodes@;
    let ghost v = visual_forest(orig);
    proof {
        lemma_visual_forest(orig);
    }
    let mut i: usize = 0;
    while i < nodes.len()
        invariant
            i <= nodes.len(),
            orig == old(nodes)@,
            nodes@.len() == orig.len(),
            v == visual_forest(orig),
            v.len() == orig.len(),
            forall|j: int| 0 <= j < orig.len() ==> #[trigger] v[j] == visual_view(orig[j]),
            forall|j: int| i <= j < orig.len() ==> #[trigger] nodes@[j] == orig[j],
            forall|j: int| 0 <= j < i ==> #[trigger] visual_view(nodes@[j]) == v[j],
            forest_set_from(v, 0, name@, u) == forest_set_from(v, i as int, name@, u),
        decreases nodes.len() - i,
    {
        let ghost cur = nodes@;
        let mut node = nodes.remove(i);
        proof {
            assert(node == orig[i as int]);
            assert(decreases_to!(orig => orig[i as int]));
        }
        let ghost old_node = node;
        let f = set_in_node(&mut node, name, u);
        nodes.insert(i, node);
        proof {
            assert(nodes@ =~= cur.update(i as int, node));
            lemma_visual_forest(nodes@);
        }
        if f {
            proof {
                assert(v[i as int] == visual_view(old_node));
                assert(visual_forest(nodes@) =~= v.update(i as int, visual_view(node)));
            }
            return true;
        }
        i = i + 1;
    }
    proof {
        lemma_visual_forest(nodes@);
        assert(visual_forest(nodes@) =~= v);
    }
    false
}

fn clear_in_node(node: &mut VisualTreeNode)
    ensures
        visual_view(*final(node)) == clear_node(visual_view(*old(node))),
    decreases *old(node), 0int,
{
    match node.status {
        SyncBranchStatus::InFlight { .. } => {
            node.status = SyncBranchStatus::Pending;
        },
        _ => {},
    }
    proof {
        assert(decreases_to!(*old(node) => old(node).children));
    }
    clear_in_forest(&mut node.children);
}

fn clear_in_forest(nodes: &mut Vec<VisualTreeNode>)
    ensures
        visual_forest(final(nodes)@) == clear_forest(visual_forest(old(nodes)@)),
    decreases old(nodes)@, 1int,
{
    let ghost orig = nodes@;
    let ghost v = visual_forest(orig);
    proof {
        lemma_visual_forest(orig);
        lemma_clear_forest_upto(v, v.len() as int);
    }
    let mut i: usize = 0;
    while i < nodes.len()
        invariant
            i <= nodes.len(),
            orig == old(nodes)@,
            nodes@.len() == orig.len(),
            v == visual_forest(orig),
            v.len() == orig.len(),
            forall|j: int| 0 <= j < orig.len() ==> #[trigger] v[j] == visual_view(orig[j]),
            forall|j: int| i <= j < orig.len() ==> #[trigger] nodes@[j] == orig[j],
            forall|j: int| 0 <= j < i ==> #[trigger] visual_view(nodes@[j]) == clear_node(v[j]),
            clear_forest(v).len() == v.len(),
            forall|j: int| 0 <= j < v.len() ==> #[trigger] clear_forest(v)[j] == clear_node(v[j]),
        decreases nodes.len() - i,
    {
        let ghost cur = nodes@;
        let mut node = nodes.remove(i);
        proof {
            assert(node == orig[i as int]);
            assert(decreases_to!(orig => orig[i as int]));
        }
        clear_in_node(&mut node);
        nodes.insert(i, node);
        proof {
            assert(nodes@ =~= cur.update(i as int, node));
        }
        i = i + 1;
    }
    proof {
        lemma_visual_forest(nodes@);
        assert(visual_forest(nodes@) =~= clear_forest(v));
    }
}

fn tick_in_node(node: &mut VisualTreeNode) -> (changed: bool)
    ensures
        (visual_view(*final(node)), changed) == tick_node(visual_view(*old(node))),
    decreases *old(node), 0int,
{
    let ghost before = *node;
    proof {
        lemma_visual_forest(node.children@);
    }
    let (s, a) = tick_status(node.status);
    node.status = s;
    proof {
        assert(decreases_to!(*old(node) => old(node).children));
    }
    let b = tick_in_forest(&mut node.children);
    proof {
        assert(visual_view(before).children == visual_forest(before.children@));
        assert(visual_view(*node).children == visual_forest(node.children@));
        assert(tick_node(visual_view(before)) == (
            SyncNodeView { status: s, children: visual_forest(node.children@), ..visual_view(before) },
            a || b,
        ));
    }
    a || b
}

pub(crate) fn tick_in_forest(nodes: &mut Vec<VisualTreeNode>) -> (changed: bool)
    ensures
        (visual_forest(final(nodes)@), changed) == tick_forest_upto(
            visual_forest(old(nodes)@),
            old(nodes)@.len() as int,
        ),
    decreases old(nodes)@, 1int,
{
    let ghost orig = nodes@;
    let ghost v = visual_forest(orig);
    proof {
        lemma_visual_forest(orig);
        lemma_tick_forest_upto(v, v.len() as int);
    }
    let mut changed = false;
    let mut i: usize = 0;
    while i < nodes.len()
        invariant
            i <= nodes.len(),
            orig == old(nodes)@,
            nodes@.len() == orig.len(),
            v == visual_forest(orig),
            v.len() == orig.len(),
            forall|j: int| 0 <= j < orig.len() ==> #[trigger] v[j] == visual_view(orig[j]),
            forall|j: int| i <= j < orig.len() ==> #[trigger] nodes@[j] == orig[j],
            forall|j: int| 0 <= j < i ==> #[trigger] visual_view(nodes@[j]) == tick_node(v[j]).0,
            changed == tick_forest_upto(v, i as int).1,
        decreases nodes.len() - i,
    {
        let ghost cur = nodes@;
        let mut node = nodes.remove(i);
        proof {
            assert(node == orig[i as int]);
            assert(decreases_to!(orig => orig[i as int]));
        }
        let c = tick_in_node(&mut node);
        nodes.insert(i, node);
        proof {
            assert(nodes@ =~= cur.update(i as int, node));
        }
        changed = changed || c;
        i = i + 1;
    }
    proof {
        lemma_visual_forest(nodes@);
        lemma_tick_forest_upto(v, v.len() as int);
        assert(visual_forest(nodes@) =~= tick_forest_upto(v, v.len() as int).0);
    }
    changed
}

/// The progress note of a rebase: ` [current/total]` when both are known.
pub open spec fn progress_text(current: Option<usize>, total: Option<usize>) -> Seq<char> {
    match (current, total) {
        (Some(c), Some(t)) => " ["@ + decimal_digits(c as nat) + "/"@ + decimal_digits(t as nat) + "]"@,
        _ => Seq::<char>::empty(),
    }
}

/// The label of a branch of the sync display: plain while pending, orange with the throbber and
/// the progress while rebasing, green with a check mark when done, struck through with a tilde
/// when archived, red and struck through with a cross when deleted.
pub open spec fn sync_label(n: SyncNodeView) -> Seq<char> {
    let label = branch_text(n.branch_name, n.pull_request_number);
    match n.status {
        SyncBranchStatus::Pending => label,
        SyncBranchStatus::InFlight { frame_index, current_commit, total_commits } => paint(
            Accent::SyncInFlight,
            throbber_frame(frame_index as nat % 4),
        ) + " "@ + paint(Accent::SyncInFlight, label) + progress_text(current_commit, total_commits),
        SyncBranchStatus::Succeeded => paint(Accent::Success, success_marker()) + " "@ + paint(
            Accent::Success,
            label,
        ),
        SyncBranchStatus::Deleted => paint(Accent::Danger, deleted_marker()) + " "@ + paint_struck(
            Accent::Danger,
            label,
        ),
        SyncBranchStatus::Archived => paint(Accent::TagRef, archived_marker()) + " "@ + paint_struck(
            Accent::TagRef,
            label,
        ),
    }
}

fn format_sync_label(node: &VisualTreeNode) -> (r: String)
    ensures
        r@ == sync_label(visual_view(*node)),
{
    let label = format_branch_text(node.branch_name.as_str(), node.pull_request_number);
    match node.status {
        SyncBranchStatus::Pending => label,
        SyncBranchStatus::InFlight { frame_index, current_commit, total_commits } => {
            let mut r = Accent::SyncInFlight.paint_ansi(throbber_text(frame_index % 4).as_str());
            push_str(&mut r, " ");
            push_str(&mut r, Accent::SyncInFlight.paint_ansi(label.as_str()).as_str());
            match (current_commit, total_commits) {
                (Some(c), Some(t)) => {
                    push_str(&mut r, " [");
                    push_decimal(&mut r, c as u64);
                    push_str(&mut r, "/");
                    push_decimal(&mut r, t as u64);
                    push_str(&mut r, "]");
                },
                _ => {},
            }
            proof {
                assert((frame_index % 4) as nat % 4 == frame_index as nat % 4);
            }
            r
        },
        SyncBranchStatus::Succeeded => {
            let mut r = Accent::Success.paint_ansi(success_text().as_str());
            push_str(&mut r, " ");
            push_str(&mut r, Accent::Success.paint_ansi(label.as_str()).as_str());
            r
        },
        SyncBranchStatus::Deleted => {
            let mut r = Accent::Danger.paint_ansi(deleted_text().as_str());
            push_str(&mut r, " ");
            push_str(&mut r, Accent::Danger.paint_struck_ansi(label.as_str()).as_str());
            r
        },
        SyncBranchStatus::Archived => {
            let mut r = Accent::TagRef.paint_ansi(archived_text().as_str());
            push_str(&mut r, " ");
            push_str(&mut r, Accent::TagRef.paint_struck_ansi(label.as_str()).as_str());
            r
        },
    }
}

/// A branch of the sync display with its label, as plain values.
pub open spec fn sync_label_tree(n: SyncNodeView) -> LabelTree
    decreases n, 0int,
{
    LabelTree { label: sync_label(n), children: sync_labels_upto(n.children, n.children.len() as int) }
}

/// The first `k` branches of `ns` with their labels.
pub open spec fn sync_labels_upto(ns: Seq<SyncNodeView>, k: int) -> Seq<LabelTree>
    decreases ns, k,
{
    if k <= 0 || k > ns.len() {
        Seq::<LabelTree>::empty()
    } else {
        sync_labels_upto(ns, k - 1).push(sync_label_tree(ns[k - 1]))
    }
}

/// Branches of the sync display with their labels.
pub open spec fn sync_labels(ns: Seq<SyncNodeView>) -> Seq<LabelTree> {
    sync_labels_upto(ns, ns.len() as int)
}

fn labeled_sync_forest(nodes: &Vec<VisualTreeNode>) -> (r: Vec<LabeledTree>)
    ensures
        label_forest(r@) == sync_labels(visual_forest(nodes@)),
    decreases nodes@,
{
    proof {
        lemma_visual_forest(nodes@);
    }
    let mut r: Vec<LabeledTree> = Vec::new();
    let mut i: usize = 0;
    while i < nodes.len()
        invariant
            i <= nodes.len(),
            visual_forest(nodes@).len() == nodes@.len(),
            forall|j: int| 0 <= j < nodes@.len() ==> #[trigger] visual_forest(nodes@)[j] == visual_view(nodes@[j]),
            label_forest(r@) == sync_labels_upto(visual_forest(nodes@), i as int),
        decreases nodes.len() - i,
    {
        let n = &nodes[i];
        proof {
            assert(decreases_to!(nodes@ => nodes@[i as int]));
            assert(decreases_to!(nodes@[i as int] => nodes@[i as int].children));
            assert(decreases_to!(nodes@[i as int].children => nodes@[i as int].children@));
        }
        let t = LabeledTree { label: format_sync_label(n), children: labeled_sync_forest(&n.children) };
        proof {
            lemma_label_forest_push(r@, t);
            lemma_visual_forest(n.children@);
            assert(label_tree(t) == sync_label_tree(visual_view(nodes@[i as int])));
        }
        r.push(t);
        i = i + 1;
    }
    r
}

/// A tree node as a pending branch of the sync display.
pub open spec fn pending_node(t: TreeNode) -> SyncNodeView
    decreases t, 0int,
{
    SyncNodeView {
        branch_name: t.branch_name@,
        pull_request_number: t.pull_request_number,
        status: SyncBranchStatus::Pending,
        children: pending_forest_upto(t.children@, t.children@.len() as int),
    }
}

/// The first `k` tree nodes of `ts` as pending branches.
pub open spec fn pending_forest_upto(ts: Seq<TreeNode>, k: int) -> Seq<SyncNodeView>
    decreases ts, k,
{
    if k <= 0 || k > ts.len() {
        Seq::<SyncNodeView>::empty()
    } else {
        pending_forest_upto(ts, k - 1).push(pending_node(ts[k - 1]))
    }
}

/// Tree nodes as pending branches of the sync display.
pub open spec fn pending_forest(ts: Seq<TreeNode>) -> Seq<SyncNodeView> {
    pending_forest_upto(ts, ts.len() as int)
}

fn visual_nodes_from_tree(nodes: &Vec<TreeNode>) -> (r: Vec<VisualTreeNode>)
    ensures
        visual_forest(r@) == pending_forest(nodes@),
    decreases nodes@,
{
    let mut r: Vec<VisualTreeNode> = Vec::new();
    let mut i: usize = 0;
    while i < nodes.len()
        invariant
            i <= nodes.len(),
            visual_forest(r@) == pending_forest_upto(nodes@, i as int),
        decreases nodes.len() - i,
    {
        let n = &nodes[i];
        proof {
            assert(decreases_to!(nodes@ => nodes@[i as int]));
            assert(decreases_to!(nodes@[i as int] => nodes@[i as int].children));
            assert(decreases_to!(nodes@[i as int].children => nodes@[i as int].children@));
        }
        let v = VisualTreeNode {
            branch_name: n.branch_name.clone(),
            pull_request_number: n.pull_request_number,
            status: SyncBranchStatus::Pending,
            children: visual_nodes_from_tree(&n.children),
        };
        proof {
            lemma_visual_forest_push(r@, v);
            assert(visual_view(v) == pending_node(nodes@[i as int]));
        }
        r.push(v);
        i = i + 1;
    }
    r
}

fn prune_final_nodes(nodes: &Vec<VisualTreeNode>) -> (r: Vec<VisualTreeNode>)
    ensures
        visual_forest(r@) == prune_forest(visual_forest(nodes@)),
    decreases nodes@,
{
    proof {
        lemma_visual_forest(nodes@);
    }
    let mut r: Vec<VisualTreeNode> = Vec::new();
    let mut i: usize = 0;
    while i < nodes.len()
        invariant
            i <= nodes.len(),
            visual_forest(nodes@).len() == nodes@.len(),
            forall|j: int| 0 <= j < nodes@.len() ==> #[trigger] visual_forest(nodes@)[j] == visual_view(nodes@[j]),
            visual_forest(r@) == prune_forest_upto(visual_forest(nodes@), i as int),
        decreases nodes.len() - i,
    {
        let n = &nodes[i];
        proof {
            assert(decreases_to!(nodes@ => nodes@[i as int]));
            assert(decreases_to!(nodes@[i as int] => nodes@[i as int].children));
            assert(decreases_to!(nodes@[i as int].children => nodes@[i as int].children@));
            lemma_visual_forest(n.children@);
        }
        let mut children = prune_final_nodes(&n.children);
        let ghost before = r@;
        match n.status {
            SyncBranchStatus::Archived => {
                let ghost c = children@;
                r.append(&mut children);
                proof {
                    lemma_visual_forest_concat(before, c);
                }
            },
            _ => {
                let v = VisualTreeNode {
                    branch_name: n.branch_name.clone(),
                    pull_request_number: n.pull_request_number,
                    status: n.status,
                    children,
                };
                proof {
                    lemma_visual_forest_push(r@, v);
                }
                r.push(v);
            },
        }
        i = i + 1;
    }
    r
}

/// The label of a branch whose sync is complete: green, with a check mark.
pub open spec fn completed_label(name: Seq<char>, pr: Option<u64>) -> Seq<char> {
    paint(Accent::Success, success_marker()) + " "@ + paint(Accent::Success, branch_text(name, pr))
}

fn format_completed_label(name: &str, pr: Option<u64>) -> (r: String)
    ensures
        r@ == completed_label(name@, pr),
{
    let label = format_branch_text(name, pr);
    let mut r = Accent::Success.paint_ansi(success_text().as_str());
    push_str(&mut r, " ");
    push_str(&mut r, Accent::Success.paint_ansi(label.as_str()).as_str());
    r
}

/// A tree node with its completed label, as plain values.
pub open spec fn completed_tree(t: TreeNode) -> LabelTree
    decreases t, 0int,
{
    LabelTree {
        label: completed_label(t.branch_name@, t.pull_request_number),
        children: completed_forest_upto(t.children@, t.children@.len() as int),
    }
}

/// The first `k` tree nodes of `ts` with their completed labels.
pub open spec fn completed_forest_upto(ts: Seq<TreeNode>, k: int) -> Seq<LabelTree>
    decreases ts, k,
{
    if k <= 0 || k > ts.len() {
        Seq::<LabelTree>::empty()
    } else {
        completed_forest_upto(ts, k - 1).push(completed_tree(ts[k - 1]))
    }
}

fn labeled_completed_forest(nodes: &Vec<TreeNode>) -> (r: Vec<LabeledTree>)
    ensures
        label_forest(r@) == completed_forest_upto(nodes@, nodes@.len() as int),
    decreases nodes@,
{
    let mut r: Vec<LabeledTree> = Vec::new();
    let mut i: usize = 0;
    while i < nodes.len()
        invariant
            i <= nodes.len(),
            label_forest(r@) == completed_forest_upto(nodes@, i as int),
        decreases nodes.len() - i,
    {
        let n = &nodes[i];
        proof {
            assert(decreases_to!(nodes@ => nodes@[i as int]));
            assert(decreases_to!(nodes@[i as int] => nodes@[i as int].children));
            assert(decreases_to!(nodes@[i as int].children => nodes@[i as int].children@));
        }
        let t = LabeledTree {
            label: format_completed_label(n.branch_name.as_str(), n.pull_request_number),
            children: labeled_completed_forest(&n.children),
        };
        proof {
            lemma_label_forest_push(r@, t);
            assert(label_tree(t) == completed_tree(nodes@[i as int]));
        }
        r.push(t);
        i = i + 1;
    }
    r
}

/// The text of a finished sync: every branch green with a check mark.
pub open spec fn completed_tree_text(v: TreeView) -> Seq<char> {
    tree_text(
        match v.root_label {
            Some(l) => Some(completed_label(l.branch_name@, l.pull_request_number)),
            None => None,
        },
        completed_forest_upto(v.roots@, v.roots@.len() as int),
    )
}

/// Draws the tree of a finished sync.
pub fn render_completed_tree(view: &TreeView) -> (r: String)
    ensures
        r@ == completed_tree_text(*view),
{
    let root = match &view.root_label {
        Some(l) => Some(format_completed_label(l.branch_name.as_str(), l.pull_request_number)),
        None => None,
    };
    let roots = labeled_completed_forest(&view.roots);
    render_tree(root, &roots)
}

/// The branches after each name in `names[..k]`, in turn, got the update.
pub open spec fn set_each_upto(ns: Seq<SyncNodeView>, names: Seq<Seq<char>>, k: int, u: StatusUpdate) -> Seq<
    SyncNodeView,
>
    decreases k,
{
    if k <= 0 || k > names.len() {
        ns
    } else {
        forest_set_from(set_each_upto(ns, names, k - 1, u), 0, names[k - 1], u).0
    }
}

/// The branches when a sync resumes: no rebase under way, the restacked branches done, the
/// deleted ones archived, and the active one being rebased.
pub open spec fn primed(
    ns: Seq<SyncNodeView>,
    restacked: Seq<Seq<char>>,
    deleted: Seq<Seq<char>>,
    active: Seq<char>,
) -> Seq<SyncNodeView> {
    let a = clear_forest(ns);
    let b = set_each_upto(a, restacked, restacked.len() as int, StatusUpdate::Assign(SyncBranchStatus::Succeeded));
    let c = set_each_upto(b, deleted, deleted.len() as int, StatusUpdate::Assign(SyncBranchStatus::Archived));
    forest_set_from(c, 0, active, StatusUpdate::Assign(start_in_flight())).0
}

/// The names of restacked branches.
pub open spec fn preview_names(ps: Seq<RestackPreview>) -> Seq<Seq<char>> {
    ps.map_values(|p: RestackPreview| p.branch_name@)
}

/// What a sync step does to the branches of the display, and whether it changed them.
pub open spec fn sync_event_effect(ns: Seq<SyncNodeView>, e: SyncEvent) -> (Seq<SyncNodeView>, bool) {
    match e {
        SyncEvent::StatusChanged(_) => (ns, false),
        SyncEvent::StageStarted(stage) => match stage {
            SyncStage::LocalSync { active_branch_name, deleted_branches, restacked_branches, .. } => (
                primed(
                    ns,
                    preview_names(restacked_branches@),
                    crate::text::views(deleted_branches@),
                    active_branch_name@,
                ),
                true,
            ),
            SyncStage::CleanupResume { .. } => (ns, false),
        },
        SyncEvent::BranchArchived { branch_name } => forest_set_from(
            ns,
            0,
            branch_name@,
            StatusUpdate::Assign(SyncBranchStatus::Archived),
        ),
        SyncEvent::RestackStarted { branch_name, .. } => forest_set_from(
            clear_forest(ns),
            0,
            branch_name@,
            StatusUpdate::Assign(start_in_flight()),
        ),
        SyncEvent::RestackProgress { branch_name, current_commit, total_commits, .. } => forest_set_from(
            ns,
            0,
            branch_name@,
            StatusUpdate::Progress(current_commit, total_commits),
        ),
        SyncEvent::RestackCompleted { branch_name, .. } => forest_set_from(
            ns,
            0,
            branch_name@,
            StatusUpdate::Assign(SyncBranchStatus::Succeeded),
        ),
        SyncEvent::Cleanup(_) => (ns, false),
    }
}

/// The tree display of a running sync.
pub struct SyncAnimation {
    root_label: Option<String>,
    roots: Vec<VisualTreeNode>,
}

impl View for SyncAnimation {
    type V = (Option<Seq<char>>, Seq<SyncNodeView>);

    closed spec fn view(&self) -> (Option<Seq<char>>, Seq<SyncNodeView>) {
        (
            match self.root_label {
                Some(l) => Some(l@),
                None => None,
            },
            visual_forest(self.roots@),
        )
    }
}

impl SyncAnimation {
    /// The display of a sync over the given tree: the root by name, every branch pending.
    pub fn new(view: &TreeView) -> (a: SyncAnimation)
        ensures
            a@ == (
                match view.root_label {
                    Some(l) => Some(l.branch_name@),
                    None => None::<Seq<char>>,
                },
                pending_forest(view.roots@),
            ),
            sync_rows(a@.1) == tree_rows_from(view.roots@, 0, 0),
    {
        proof {
            lemma_pending_rows(view.roots@);
        }
        SyncAnimation {
            root_label: match &view.root_label {
                Some(l) => Some(l.branch_name.clone()),
                None => None,
            },
            roots: visual_nodes_from_tree(&view.roots),
        }
    }

    /// Applies a sync step to the display, and reports whether it changed.
    pub fn apply_event(&mut self, event: &SyncEvent) -> (changed: bool)
        ensures
            final(self)@.0 == old(self)@.0,
            (final(self)@.1, changed) == sync_event_effect(old(self)@.1, *event),
            changed == event_changes(sync_rows(old(self)@.1), *event),
            same_but_statuses(sync_rows(old(self)@.1), sync_rows(final(self)@.1)),
    {
        proof {
            lemma_sync_event_rows(self@.1, *event);
        }
        match event {
            SyncEvent::StatusChanged(_) => false,
            SyncEvent::StageStarted(stage) => match stage {
                SyncStage::LocalSync { active_branch_name, deleted_branches, restacked_branches, .. } => {
                    self.prime_resume(restacked_branches, deleted_branches, active_branch_name.as_str());
                    true
                },
                SyncStage::CleanupResume { .. } => false,
            },
            SyncEvent::BranchArchived { branch_name } => set_in_forest(
                &mut self.roots,
                branch_name.as_str(),
                StatusUpdate::Assign(SyncBranchStatus::Archived),
            ),
            SyncEvent::RestackStarted { branch_name, .. } => {
                clear_in_forest(&mut self.roots);
                set_in_forest(
                    &mut self.roots,
                    branch_name.as_str(),
                    StatusUpdate::Assign(start_in_flight_status()),
                )
            },
            SyncEvent::RestackProgress { branch_name, current_commit, total_commits, .. } => set_in_forest(
                &mut self.roots,
                branch_name.as_str(),
                StatusUpdate::Progress(*current_commit, *total_commits),
            ),
            SyncEvent::RestackCompleted { branch_name, .. } => set_in_forest(
                &mut self.roots,
                branch_name.as_str(),
                StatusUpdate::Assign(SyncBranchStatus::Succeeded),
            ),
            SyncEvent::Cleanup(_) => false,
        }
    }

    fn prime_resume(&mut self, restacked_branches: &Vec<RestackPreview>, deleted_branches: &Vec<String>, active_branch_name: &str)
        ensures
            final(self)@.0 == old(self)@.0,
            final(self)@.1 == primed(
                old(self)@.1,
                preview_names(restacked_branches@),
                crate::text::views(deleted_branches@),
                active_branch_name@,
            ),
    {
        clear_in_forest(&mut self.roots);
        let ghost a = visual_forest(self.roots@);
        let ghost restacked = preview_names(restacked_branches@);
        let ghost deleted = crate::text::views(deleted_branches@);
        let mut i: usize = 0;
        while i < restacked_branches.len()
            invariant
                i <= restacked_branches.len(),
                restacked == preview_names(restacked_branches@),
                self.root_label == old(self).root_label,
                visual_forest(self.roots@) == set_each_upto(
                    a,
                    restacked,
                    i as int,
                    StatusUpdate::Assign(SyncBranchStatus::Succeeded),
                ),
            decreases restacked_branches.len() - i,
        {
            set_in_forest(
                &mut self.roots,
                restacked_branches[i].branch_name.as_str(),
                StatusUpdate::Assign(SyncBranchStatus::Succeeded),
            );
            i = i + 1;
        }
        let ghost b = visual_forest(self.roots@);
        let mut j: usize = 0;
        while j < deleted_branches.len()
            invariant
                j <= deleted_branches.len(),
                deleted == crate::text::views(deleted_branches@),
                self.root_label == old(self).root_label,
                visual_forest(self.roots@) == set_each_upto(
                    b,
                    deleted,
                    j as int,
                    StatusUpdate::Assign(SyncBranchStatus::Archived),
                ),
            decreases deleted_branches.len() - j,
        {
            set_in_forest(
                &mut self.roots,
                deleted_branches[j].as_str(),
                StatusUpdate::Assign(SyncBranchStatus::Archived),
            );
            j = j + 1;
        }
        set_in_forest(&mut self.roots, active_branch_name, StatusUpdate::Assign(start_in_flight_status()));
    }

    /// Draws the display of the running sync.
    pub fn render_active(&self) -> (r: String)
        ensures
            r@ == tree_text(self@.0, sync_labels(self@.1)),
    {
        let roots = labeled_sync_forest(&self.roots);
        render_tree(self.root_label.clone(), &roots)
    }

    /// Draws the display of the finished sync: archived branches give way to their children.
    pub fn render_final(&self) -> (r: String)
        ensures
            r@ == tree_text(self@.0, sync_labels(prune_forest(self@.1))),
    {
        let pruned = prune_final_nodes(&self.roots);
        let roots = labeled_sync_forest(&pruned);
        render_tree(self.root_label.clone(), &roots)
    }

    /// Moves every throbber one frame further, and reports whether any moved.
    pub fn tick(&mut self) -> (changed: bool)
        ensures
            final(self)@.0 == old(self)@.0,
            (final(self)@.1, changed) == tick_forest_upto(old(self)@.1, old(self)@.1.len() as int),
            ticked_rows(sync_rows(old(self)@.1), sync_rows(final(self)@.1)),
            changed == shows_in_flight(sync_rows(old(self)@.1)),
            plain_upto(old(self)@.1, old(self)@.1.len() as int) ==> {
                &&& sync_labels(final(self)@.1) == advance_labels(sync_labels(old(self)@.1))
                &&& tree_text(final(self)@.0, sync_labels(final(self)@.1)) == tree_text(
                    old(self)@.0,
                    advance_labels(sync_labels(old(self)@.1)),
                )
                &&& changed == any_in_flight_upto(sync_labels(old(self)@.1), old(self)@.1.len() as int)
            },
    {
        proof {
            lemma_tick_rows(self@.1);
            if plain_upto(self@.1, self@.1.len() as int) {
                lemma_tick_labels(self@.1);
            }
            lemma_visual_forest(self.roots@);
        }
        tick_in_forest(&mut self.roots)
    }
}

} // verus!
