use vstd::prelude::*;

use crate::sync_render::{
    clear_forest, clear_forest_upto, clear_node, forest_set_from, node_set, pending_forest, pending_forest_upto,
    pending_node, preview_names, primed, set_each_upto, start_in_flight, sync_event_effect, tick_forest_upto,
    tick_node, ticked, StatusUpdate, SyncBranchStatus, SyncEvent, SyncNodeView, SyncStage,
};
use crate::ansi::{accent_code, archived_marker, deleted_marker, paint, paint_struck, reset_code, strike_code, success_marker, throbber_frame, Accent};
use crate::layout::{tree_text, LabelTree};
use crate::sync_render::{progress_text, sync_label, sync_label_tree, sync_labels, sync_labels_upto};
use crate::tree_view::{branch_text, TreeNode};

verus! {

/// One line of the sync display: its depth, branch, pull request and status.
pub type SyncRow = (nat, Seq<char>, Option<u64>, SyncBranchStatus);

/// The lines of a branch and of everything under it, depth first, the branch at depth `d`.
pub open spec fn node_rows(n: SyncNodeView, d: nat) -> Seq<SyncRow>
    decreases n, 0int,
{
    seq![(d, n.branch_name, n.pull_request_number, n.status)] + rows_from(n.children, 0, d + 1)
}

/// The lines of the branches of `ns` from entry `i` on, each at depth `d`.
pub open spec fn rows_from(ns: Seq<SyncNodeView>, i: int, d: nat) -> Seq<SyncRow>
    decreases ns, ns.len() - i,
{
    if i < 0 || i >= ns.len() {
        Seq::<SyncRow>::empty()
    } else {
        node_rows(ns[i], d) + rows_from(ns, i + 1, d)
    }
}

/// The lines of the whole sync display, roots at depth zero.
pub open spec fn sync_rows(ns: Seq<SyncNodeView>) -> Seq<SyncRow> {
    rows_from(ns, 0, 0)
}

/// The lines of a tree node and of everything under it, as pending branches.
pub open spec fn tree_node_rows(t: TreeNode, d: nat) -> Seq<SyncRow>
    decreases t, 0int,
{
    seq![(d, t.branch_name@, t.pull_request_number, SyncBranchStatus::Pending)] + tree_rows_from(
        t.children@,
        0,
        d + 1,
    )
}

/// The lines of the tree nodes of `ts` from entry `i` on, as pending branches.
pub open spec fn tree_rows_from(ts: Seq<TreeNode>, i: int, d: nat) -> Seq<SyncRow>
    decreases ts, ts.len() - i,
{
    if i < 0 || i >= ts.len() {
        Seq::<SyncRow>::empty()
    } else {
        tree_node_rows(ts[i], d) + tree_rows_from(ts, i + 1, d)
    }
}

/// Whether some line shows the branch `name`.
pub open spec fn shows_branch(rows: Seq<SyncRow>, name: Seq<char>) -> bool {
    exists|i: int| 0 <= i < rows.len() && #[trigger] rows[i].1 == name
}

/// Whether some line shows a rebase under way.
pub open spec fn shows_in_flight(rows: Seq<SyncRow>) -> bool {
    exists|i: int| 0 <= i < rows.len() && (#[trigger] rows[i].3 is InFlight)
}

/// Whether two lines match: one throbber frame apart where `tick` holds, else differing at
/// most in their status.
pub open spec fn row_pair(tick: bool, x: SyncRow, y: SyncRow) -> bool {
    if tick {
        tick_row(x, y)
    } else {
        same_but_status(x, y)
    }
}

/// Whether two lists of lines match line by line.
pub open spec fn rows_rel(a: Seq<SyncRow>, b: Seq<SyncRow>, tick: bool) -> bool {
    a.len() == b.len() && forall|i: int| 0 <= i < a.len() ==> #[trigger] row_pair(tick, a[i], b[i])
}

/// Two lines that differ at most in their status.
pub open spec fn same_but_status(x: SyncRow, y: SyncRow) -> bool {
    x.0 == y.0 && x.1 == y.1 && x.2 == y.2
}

/// A line and the same line one throbber frame later.
pub open spec fn tick_row(x: SyncRow, y: SyncRow) -> bool {
    y == (x.0, x.1, x.2, ticked(x.3).0)
}

/// Lists of lines that differ at most in their statuses.
pub open spec fn same_but_statuses(a: Seq<SyncRow>, b: Seq<SyncRow>) -> bool {
    rows_rel(a, b, false)
}

/// A list of lines and the same lines one throbber frame later.
pub open spec fn ticked_rows(a: Seq<SyncRow>, b: Seq<SyncRow>) -> bool {
    rows_rel(a, b, true)
}

proof fn lemma_rel_concat(
    a1: Seq<SyncRow>,
    b1: Seq<SyncRow>,
    a2: Seq<SyncRow>,
    b2: Seq<SyncRow>,
    tick: bool,
)
    requires
        rows_rel(a1, b1, tick),
        rows_rel(a2, b2, tick),
    ensures
        rows_rel(a1 + a2, b1 + b2, tick),
{
    assert forall|i: int| 0 <= i < (a1 + a2).len() implies #[trigger] row_pair(tick, (a1 + a2)[i], (b1 + b2)[i]) by {
        if i < a1.len() {
            assert(row_pair(tick, a1[i], b1[i]));
        } else {
            assert(row_pair(tick, a2[i - a1.len()], b2[i - a1.len()]));
        }
    }
}

proof fn lemma_same_trans(a: Seq<SyncRow>, b: Seq<SyncRow>, c: Seq<SyncRow>)
    requires
        same_but_statuses(a, b),
        same_but_statuses(b, c),
    ensures
        same_but_statuses(a, c),
{
    assert forall|i: int| 0 <= i < a.len() implies #[trigger] row_pair(false, a[i], c[i]) by {
        assert(row_pair(false, a[i], b[i]));
        assert(row_pair(false, b[i], c[i]));
    }
}

/// Every list of lines differs from itself at most in its statuses.
pub proof fn lemma_same_refl(a: Seq<SyncRow>)
    ensures
        same_but_statuses(a, a),
{
    assert forall|i: int| 0 <= i < a.len() implies #[trigger] row_pair(false, a[i], a[i]) by {}
}

/// Lines that differ at most in their statuses show the same branches.
pub proof fn lemma_same_shows(a: Seq<SyncRow>, b: Seq<SyncRow>, name: Seq<char>)
    requires
        same_but_statuses(a, b),
    ensures
        shows_branch(a, name) == shows_branch(b, name),
{
    if shows_branch(a, name) {
        let i = choose|i: int| 0 <= i < a.len() && #[trigger] a[i].1 == name;
        assert(row_pair(false, a[i], b[i]));
        assert(b[i].1 == name);
    }
    if shows_branch(b, name) {
        let i = choose|i: int| 0 <= i < b.len() && #[trigger] b[i].1 == name;
        assert(row_pair(false, a[i], b[i]));
        assert(a[i].1 == name);
    }
}

proof fn lemma_shows_concat(a: Seq<SyncRow>, b: Seq<SyncRow>, name: Seq<char>)
    ensures
        shows_branch(a + b, name) == (shows_branch(a, name) || shows_branch(b, name)),
        shows_in_flight(a + b) == (shows_in_flight(a) || shows_in_flight(b)),
{
    if shows_branch(a + b, name) {
        let i = choose|i: int| 0 <= i < (a + b).len() && #[trigger] (a + b)[i].1 == name;
        if i < a.len() {
            assert(a[i].1 == name);
        } else {
            assert(b[i - a.len()].1 == name);
        }
    }
    if shows_branch(a, name) {
        let i = choose|i: int| 0 <= i < a.len() && #[trigger] a[i].1 == name;
        assert((a + b)[i].1 == name);
    }
    if shows_branch(b, name) {
        let i = choose|i: int| 0 <= i < b.len() && #[trigger] b[i].1 == name;
        assert((a + b)[i + a.len()].1 == name);
    }
    if shows_in_flight(a + b) {
        let i = choose|i: int| 0 <= i < (a + b).len() && (#[trigger] (a + b)[i].3 is InFlight);
        if i < a.len() {
            assert(a[i].3 is InFlight);
        } else {
            assert(b[i - a.len()].3 is InFlight);
        }
    }
    if shows_in_flight(a) {
        let i = choose|i: int| 0 <= i < a.len() && (#[trigger] a[i].3 is InFlight);
        assert((a + b)[i].3 is InFlight);
    }
    if shows_in_flight(b) {
        let i = choose|i: int| 0 <= i < b.len() && (#[trigger] b[i].3 is InFlight);
        assert((a + b)[i + a.len()].3 is InFlight);
    }
}

/// Forests that match entry by entry from `i` on match line by line.
proof fn lemma_rows_pointwise(
    ns: Seq<SyncNodeView>,
    ms: Seq<SyncNodeView>,
    i: int,
    d: nat,
    tick: bool,
)
    requires
        ns.len() == ms.len(),
        forall|j: int| i <= j < ns.len() ==> rows_rel(node_rows(ns[j], d), node_rows(#[trigger] ms[j], d), tick),
    ensures
        rows_rel(rows_from(ns, i, d), rows_from(ms, i, d), tick),
    decreases ns.len() - i,
{
    if i < 0 || i >= ns.len() {
    } else {
        lemma_rows_pointwise(ns, ms, i + 1, d, tick);
        assert(rows_rel(node_rows(ns[i], d), node_rows(ms[i], d), tick));
        lemma_rel_concat(node_rows(ns[i], d), node_rows(ms[i], d), rows_from(ns, i + 1, d), rows_from(ms, i + 1, d), tick);
    }
}

proof fn lemma_set_keeps_prefix(ns: Seq<SyncNodeView>, i: int, name: Seq<char>, u: StatusUpdate)
    ensures
        forest_set_from(ns, i, name, u).0.len() == ns.len(),
        forall|j: int| 0 <= j < i && j < ns.len() ==> #[trigger] forest_set_from(ns, i, name, u).0[j] == ns[j],
    decreases ns.len() - i,
{
    if 0 <= i < ns.len() {
        lemma_set_keeps_prefix(ns, i + 1, name, u);
    }
}

/// An update of a branch changes only statuses, and finds the branch exactly when some line
/// shows it.
proof fn lemma_node_set_rows(n: SyncNodeView, d: nat, name: Seq<char>, u: StatusUpdate)
    ensures
        node_set(n, name, u).1 == shows_branch(node_rows(n, d), name),
        same_but_statuses(node_rows(n, d), node_rows(node_set(n, name, u).0, d)),
    decreases n, 0int,
{
    let head = seq![(d, n.branch_name, n.pull_request_number, n.status)];
    lemma_forest_set_rows(n.children, 0, d + 1, name, u);
    lemma_shows_concat(head, rows_from(n.children, 0, d + 1), name);
    assert(head[0].1 == n.branch_name);
    let m = node_set(n, name, u).0;
    let mhead = seq![(d, m.branch_name, m.pull_request_number, m.status)];
    assert(same_but_statuses(head, mhead)) by {
        assert(row_pair(false, head[0], mhead[0]));
    }
    if n.branch_name == name {
        lemma_same_refl(rows_from(n.children, 0, d + 1));
    } else if forest_set_from(n.children, 0, name, u).1 {
    } else {
        lemma_same_refl(node_rows(n, d));
        assert(!shows_branch(head, name));
    }
    if n.branch_name == name || forest_set_from(n.children, 0, name, u).1 {
        lemma_rel_concat(
            head,
            mhead,
            rows_from(n.children, 0, d + 1),
            rows_from(m.children, 0, d + 1),
            false,
        );
    }
}

/// An update in a forest changes only statuses, and finds the branch exactly when some line
/// shows it.
proof fn lemma_forest_set_rows(ns: Seq<SyncNodeView>, i: int, d: nat, name: Seq<char>, u: StatusUpdate)
    ensures
        forest_set_from(ns, i, name, u).1 == shows_branch(rows_from(ns, i, d), name),
        same_but_statuses(rows_from(ns, i, d), rows_from(forest_set_from(ns, i, name, u).0, i, d)),
    decreases ns, ns.len() - i,
{
    if i < 0 || i >= ns.len() {
        lemma_same_refl(rows_from(ns, i, d));
    } else {
        let (h, f) = node_set(ns[i], name, u);
        lemma_node_set_rows(ns[i], d, name, u);
        lemma_shows_concat(node_rows(ns[i], d), rows_from(ns, i + 1, d), name);
        if f {
            let ms = ns.update(i, h);
            assert forall|j: int| i + 1 <= j < ns.len() implies rows_rel(
                node_rows(ns[j], d),
                node_rows(#[trigger] ms[j], d),
                false,
            ) by {
                lemma_same_refl(node_rows(ns[j], d));
            }
            lemma_rows_pointwise(ns, ms, i + 1, d, false);
            lemma_rel_concat(
                node_rows(ns[i], d),
                node_rows(ms[i], d),
                rows_from(ns, i + 1, d),
                rows_from(ms, i + 1, d),
                false,
            );
        } else {
            lemma_forest_set_rows(ns, i + 1, d, name, u);
            let ms = forest_set_from(ns, i + 1, name, u).0;
            lemma_set_keeps_prefix(ns, i + 1, name, u);
            assert(ms[i] == ns[i]);
            lemma_same_refl(node_rows(ns[i], d));
            lemma_rel_concat(
                node_rows(ns[i], d),
                node_rows(ms[i], d),
                rows_from(ns, i + 1, d),
                rows_from(ms, i + 1, d),
                false,
            );
        }
    }
}

/// An update of the branch `name` reports a change exactly when the display shows that branch,
/// and changes no line but in its status.
pub proof fn lemma_update_rows(ns: Seq<SyncNodeView>, name: Seq<char>, u: StatusUpdate)
    ensures
        forest_set_from(ns, 0, name, u).1 == shows_branch(sync_rows(ns), name),
        same_but_statuses(sync_rows(ns), sync_rows(forest_set_from(ns, 0, name, u).0)),
        forest_set_from(ns, 0, name, u).0.len() == ns.len(),
{
    lemma_forest_set_rows(ns, 0, 0, name, u);
    lemma_set_keeps_prefix(ns, 0, name, u);
}

proof fn lemma_clear_node_rows(n: SyncNodeView, d: nat)
    ensures
        same_but_statuses(node_rows(n, d), node_rows(clear_node(n), d)),
    decreases n, 0int,
{
    let cs = clear_forest_upto(n.children, n.children.len() as int);
    lemma_clear_upto_len(n.children, n.children.len() as int);
    assert forall|j: int| 0 <= j < n.children.len() implies rows_rel(
        node_rows(n.children[j], d + 1),
        node_rows(#[trigger] cs[j], d + 1),
        false,
    ) by {
        lemma_clear_node_rows(n.children[j], d + 1);
    }
    lemma_rows_pointwise(n.children, cs, 0, d + 1, false);
    let m = clear_node(n);
    let head = seq![(d, n.branch_name, n.pull_request_number, n.status)];
    let mhead = seq![(d, m.branch_name, m.pull_request_number, m.status)];
    assert(row_pair(false, head[0], mhead[0]));
    lemma_rel_concat(head, mhead, rows_from(n.children, 0, d + 1), rows_from(cs, 0, d + 1), false);
}

proof fn lemma_clear_upto_len(ns: Seq<SyncNodeView>, k: int)
    requires
        0 <= k <= ns.len(),
    ensures
        clear_forest_upto(ns, k).len() == k,
        forall|i: int| 0 <= i < k ==> #[trigger] clear_forest_upto(ns, k)[i] == clear_node(ns[i]),
    decreases k,
{
    if k > 0 {
        lemma_clear_upto_len(ns, k - 1);
    }
}

/// Clearing the rebases under way changes no line but in its status.
pub proof fn lemma_clear_rows(ns: Seq<SyncNodeView>)
    ensures
        same_but_statuses(sync_rows(ns), sync_rows(clear_forest(ns))),
{
    let cs = clear_forest(ns);
    lemma_clear_upto_len(ns, ns.len() as int);
    assert forall|j: int| 0 <= j < ns.len() implies rows_rel(
        node_rows(ns[j], 0),
        node_rows(#[trigger] cs[j], 0),
        false,
    ) by {
        lemma_clear_node_rows(ns[j], 0);
    }
    lemma_rows_pointwise(ns, cs, 0, 0, false);
}

/// Updating a list of branches in turn changes no line but in its status.
pub proof fn lemma_set_each_rows(ns: Seq<SyncNodeView>, names: Seq<Seq<char>>, k: int, u: StatusUpdate)
    ensures
        same_but_statuses(sync_rows(ns), sync_rows(set_each_upto(ns, names, k, u))),
    decreases k,
{
    if k <= 0 || k > names.len() {
        lemma_same_refl(sync_rows(ns));
    } else {
        lemma_set_each_rows(ns, names, k - 1, u);
        let p = set_each_upto(ns, names, k - 1, u);
        lemma_update_rows(p, names[k - 1], u);
        lemma_same_trans(sync_rows(ns), sync_rows(p), sync_rows(set_each_upto(ns, names, k, u)));
    }
}

proof fn lemma_tick_upto(ns: Seq<SyncNodeView>, k: int)
    requires
        0 <= k <= ns.len(),
    ensures
        tick_forest_upto(ns, k).0.len() == k,
        forall|i: int| 0 <= i < k ==> #[trigger] tick_forest_upto(ns, k).0[i] == tick_node(ns[i]).0,
        tick_forest_upto(ns, k).1 == exists|i: int| 0 <= i < k && #[trigger] tick_node(ns[i]).1,
    decreases k,
{
    if k > 0 {
        lemma_tick_upto(ns, k - 1);
        if tick_node(ns[k - 1]).1 {
            assert(tick_node(ns[k - 1]).1);
        }
        if tick_forest_upto(ns, k - 1).1 {
            let i = choose|i: int| 0 <= i < k - 1 && #[trigger] tick_node(ns[i]).1;
            assert(tick_node(ns[i]).1);
        }
    }
}

proof fn lemma_in_flight_from(ns: Seq<SyncNodeView>, i: int, d: nat)
    requires
        0 <= i,
    ensures
        shows_in_flight(rows_from(ns, i, d)) == exists|j: int|
            i <= j < ns.len() && shows_in_flight(#[trigger] node_rows(ns[j], d)),
    decreases ns.len() - i,
{
    if i < ns.len() {
        lemma_in_flight_from(ns, i + 1, d);
        lemma_shows_concat(node_rows(ns[i], d), rows_from(ns, i + 1, d), Seq::<char>::empty());
        if exists|j: int| i <= j < ns.len() && shows_in_flight(#[trigger] node_rows(ns[j], d)) {
            let j = choose|j: int| i <= j < ns.len() && shows_in_flight(#[trigger] node_rows(ns[j], d));
            if j > i {
                assert(shows_in_flight(node_rows(ns[j], d)));
            }
        }
        if shows_in_flight(node_rows(ns[i], d)) {
            assert(shows_in_flight(node_rows(ns[i], d)));
        }
    }
}

proof fn lemma_tick_node_rows(n: SyncNodeView, d: nat)
    ensures
        ticked_rows(node_rows(n, d), node_rows(tick_node(n).0, d)),
        tick_node(n).1 == shows_in_flight(node_rows(n, d)),
    decreases n, 0int,
{
    let cs = n.children;
    let k = cs.len() as int;
    let ts = tick_forest_upto(cs, k).0;
    lemma_tick_upto(cs, k);
    assert forall|j: int| 0 <= j < cs.len() implies rows_rel(
        node_rows(cs[j], d + 1),
        node_rows(#[trigger] ts[j], d + 1),
        true,
    ) by {
        lemma_tick_node_rows(cs[j], d + 1);
    }
    lemma_rows_pointwise(cs, ts, 0, d + 1, true);
    let m = tick_node(n).0;
    let head = seq![(d, n.branch_name, n.pull_request_number, n.status)];
    let mhead = seq![(d, m.branch_name, m.pull_request_number, m.status)];
    assert(row_pair(true, head[0], mhead[0]));
    lemma_rel_concat(head, mhead, rows_from(cs, 0, d + 1), rows_from(ts, 0, d + 1), true);
    lemma_in_flight_from(cs, 0, d + 1);
    lemma_shows_concat(head, rows_from(cs, 0, d + 1), Seq::<char>::empty());
    assert(shows_in_flight(head) == (n.status is InFlight)) by {
        if n.status is InFlight {
            assert(head[0].3 is InFlight);
        }
    }
    assert(ticked(n.status).1 == (n.status is InFlight));
    if tick_forest_upto(cs, k).1 {
        let i = choose|i: int| 0 <= i < k && #[trigger] tick_node(cs[i]).1;
        lemma_tick_node_rows(cs[i], d + 1);
        assert(shows_in_flight(node_rows(cs[i], d + 1)));
    }
    if exists|j: int| 0 <= j < cs.len() && shows_in_flight(#[trigger] node_rows(cs[j], d + 1)) {
        let j = choose|j: int| 0 <= j < cs.len() && shows_in_flight(#[trigger] node_rows(cs[j], d + 1));
        lemma_tick_node_rows(cs[j], d + 1);
        assert(tick_node(cs[j]).1);
    }
}

/// A tick moves the throbber of every line with a rebase under way one frame further, keeps
/// every other part of every line, and reports a change exactly when some line had a rebase
/// under way.
pub proof fn lemma_tick_rows(ns: Seq<SyncNodeView>)
    ensures
        ticked_rows(sync_rows(ns), sync_rows(tick_forest_upto(ns, ns.len() as int).0)),
        tick_forest_upto(ns, ns.len() as int).1 == shows_in_flight(sync_rows(ns)),
{
    let k = ns.len() as int;
    let ts = tick_forest_upto(ns, k).0;
    lemma_tick_upto(ns, k);
    assert forall|j: int| 0 <= j < ns.len() implies rows_rel(
        node_rows(ns[j], 0),
        node_rows(#[trigger] ts[j], 0),
        true,
    ) by {
        lemma_tick_node_rows(ns[j], 0);
    }
    lemma_rows_pointwise(ns, ts, 0, 0, true);
    lemma_in_flight_from(ns, 0, 0);
    if tick_forest_upto(ns, k).1 {
        let i = choose|i: int| 0 <= i < k && #[trigger] tick_node(ns[i]).1;
        lemma_tick_node_rows(ns[i], 0);
        assert(shows_in_flight(node_rows(ns[i], 0)));
    }
    if exists|j: int| 0 <= j < ns.len() && shows_in_flight(#[trigger] node_rows(ns[j], 0)) {
        let j = choose|j: int| 0 <= j < ns.len() && shows_in_flight(#[trigger] node_rows(ns[j], 0));
        lemma_tick_node_rows(ns[j], 0);
        assert(tick_node(ns[j]).1);
    }
}

proof fn lemma_pending_upto(ts: Seq<TreeNode>, k: int)
    requires
        0 <= k <= ts.len(),
    ensures
        pending_forest_upto(ts, k).len() == k,
        forall|i: int| 0 <= i < k ==> #[trigger] pending_forest_upto(ts, k)[i] == pending_node(ts[i]),
    decreases k,
{
    if k > 0 {
        lemma_pending_upto(ts, k - 1);
    }
}

proof fn lemma_pending_node_rows(t: TreeNode, d: nat)
    ensures
        node_rows(pending_node(t), d) == tree_node_rows(t, d),
    decreases t, 0int,
{
    lemma_pending_from_rows(t.children@, 0, d + 1);
}

proof fn lemma_pending_from_rows(ts: Seq<TreeNode>, i: int, d: nat)
    ensures
        rows_from(pending_forest(ts), i, d) == tree_rows_from(ts, i, d),
    decreases ts, ts.len() - i,
{
    lemma_pending_upto(ts, ts.len() as int);
    if 0 <= i < ts.len() {
        lemma_pending_node_rows(ts[i], d);
        lemma_pending_from_rows(ts, i + 1, d);
    }
}

/// A fresh display shows the lines of the tree, every branch pending.
pub proof fn lemma_pending_rows(ts: Seq<TreeNode>)
    ensures
        sync_rows(pending_forest(ts)) == tree_rows_from(ts, 0, 0),
{
    lemma_pending_from_rows(ts, 0, 0);
}

/// Whether a sync step changes the display whose lines are `rows`: the start of a local sync
/// always does; a step about one branch does exactly when the display shows that branch; the
/// other steps never do.
pub open spec fn event_changes(rows: Seq<SyncRow>, e: SyncEvent) -> bool {
    match e {
        SyncEvent::StatusChanged(_) => false,
        SyncEvent::StageStarted(stage) => stage is LocalSync,
        SyncEvent::BranchArchived { branch_name } => shows_branch(rows, branch_name@),
        SyncEvent::RestackStarted { branch_name, .. } => shows_branch(rows, branch_name@),
        SyncEvent::RestackProgress { branch_name, .. } => shows_branch(rows, branch_name@),
        SyncEvent::RestackCompleted { branch_name, .. } => shows_branch(rows, branch_name@),
        SyncEvent::Cleanup(_) => false,
    }
}

proof fn lemma_primed_rows(
    ns: Seq<SyncNodeView>,
    restacked: Seq<Seq<char>>,
    deleted: Seq<Seq<char>>,
    active: Seq<char>,
)
    ensures
        same_but_statuses(sync_rows(ns), sync_rows(primed(ns, restacked, deleted, active))),
{
    let a = clear_forest(ns);
    let b = set_each_upto(a, restacked, restacked.len() as int, StatusUpdate::Assign(SyncBranchStatus::Succeeded));
    let c = set_each_upto(b, deleted, deleted.len() as int, StatusUpdate::Assign(SyncBranchStatus::Archived));
    lemma_clear_rows(ns);
    lemma_set_each_rows(a, restacked, restacked.len() as int, StatusUpdate::Assign(SyncBranchStatus::Succeeded));
    lemma_set_each_rows(b, deleted, deleted.len() as int, StatusUpdate::Assign(SyncBranchStatus::Archived));
    lemma_update_rows(c, active, StatusUpdate::Assign(start_in_flight()));
    lemma_same_trans(sync_rows(ns), sync_rows(a), sync_rows(b));
    lemma_same_trans(sync_rows(ns), sync_rows(b), sync_rows(c));
    lemma_same_trans(sync_rows(ns), sync_rows(c), sync_rows(primed(ns, restacked, deleted, active)));
}

/// A sync step reports a change of the display exactly as `event_changes` says, and leaves
/// every line of the display in place, with its depth, branch and pull request.
pub proof fn lemma_sync_event_rows(ns: Seq<SyncNodeView>, e: SyncEvent)
    ensures
        sync_event_effect(ns, e).1 == event_changes(sync_rows(ns), e),
        same_but_statuses(sync_rows(ns), sync_rows(sync_event_effect(ns, e).0)),
{
    lemma_same_refl(sync_rows(ns));
    match e {
        SyncEvent::StageStarted(stage) => match stage {
            SyncStage::LocalSync { active_branch_name, deleted_branches, restacked_branches, .. } => {
                lemma_primed_rows(
                    ns,
                    preview_names(restacked_branches@),
                    crate::text::views(deleted_branches@),
                    active_branch_name@,
                );
            },
            _ => {},
        },
        SyncEvent::BranchArchived { branch_name } => {
            lemma_update_rows(ns, branch_name@, StatusUpdate::Assign(SyncBranchStatus::Archived));
        },
        SyncEvent::RestackStarted { branch_name, .. } => {
            let a = clear_forest(ns);
            lemma_clear_rows(ns);
            lemma_update_rows(a, branch_name@, StatusUpdate::Assign(start_in_flight()));
            lemma_same_shows(sync_rows(ns), sync_rows(a), branch_name@);
            lemma_same_trans(sync_rows(ns), sync_rows(a), sync_rows(sync_event_effect(ns, e).0));
        },
        SyncEvent::RestackProgress { branch_name, current_commit, total_commits, .. } => {
            lemma_update_rows(ns, branch_name@, StatusUpdate::Progress(current_commit, total_commits));
        },
        SyncEvent::RestackCompleted { branch_name, .. } => {
            lemma_update_rows(ns, branch_name@, StatusUpdate::Assign(SyncBranchStatus::Succeeded));
        },
        _ => {},
    }
}

/// The escape sequence that a label in flight starts with.
pub open spec fn in_flight_prefix() -> Seq<char> {
    accent_code(Accent::SyncInFlight)
}

/// Whether `c` is a frame of the throbber.
pub open spec fn is_glyph(c: char) -> bool {
    c == '|' || c == '/' || c == '-' || c == '\\'
}

/// The throbber frame after `c`.
pub open spec fn next_glyph(c: char) -> char {
    if c == '|' {
        '/'
    } else if c == '/' {
        '-'
    } else if c == '-' {
        '\\'
    } else {
        '|'
    }
}

/// Whether a label shows a rebase under way: the in-flight colour, then a throbber frame.
pub open spec fn label_in_flight(l: Seq<char>) -> bool {
    l.len() > 11 && l.take(11) == in_flight_prefix() && is_glyph(l[11])
}

/// A label with its throbber one frame further, if it shows one; else the label itself.
pub open spec fn advance_glyph(l: Seq<char>) -> Seq<char> {
    if label_in_flight(l) {
        l.update(11, next_glyph(l[11]))
    } else {
        l
    }
}

/// A labelled tree with every throbber one frame further.
pub open spec fn advance_tree(t: LabelTree) -> LabelTree
    decreases t, 0int,
{
    LabelTree { label: advance_glyph(t.label), children: advance_upto(t.children, t.children.len() as int) }
}

/// The first `k` trees of `ts` with every throbber one frame further.
pub open spec fn advance_upto(ts: Seq<LabelTree>, k: int) -> Seq<LabelTree>
    decreases ts, k,
{
    if k <= 0 || k > ts.len() {
        Seq::<LabelTree>::empty()
    } else {
        advance_upto(ts, k - 1).push(advance_tree(ts[k - 1]))
    }
}

/// Labelled trees with every throbber one frame further.
pub open spec fn advance_labels(ts: Seq<LabelTree>) -> Seq<LabelTree> {
    advance_upto(ts, ts.len() as int)
}

/// Whether some label of a tree shows a rebase under way.
pub open spec fn tree_in_flight(t: LabelTree) -> bool
    decreases t, 0int,
{
    label_in_flight(t.label) || any_in_flight_upto(t.children, t.children.len() as int)
}

/// Whether some label of the first `k` trees of `ts` shows a rebase under way.
pub open spec fn any_in_flight_upto(ts: Seq<LabelTree>, k: int) -> bool
    decreases ts, k,
{
    if k <= 0 || k > ts.len() {
        false
    } else {
        any_in_flight_upto(ts, k - 1) || tree_in_flight(ts[k - 1])
    }
}

/// Whether a branch name does not start with an escape character (git refuses control
/// characters in branch names).
pub open spec fn plain_name(n: Seq<char>) -> bool {
    n.len() == 0 || n[0] != '\u{1b}'
}

/// Whether every branch of a tree has a plain name.
pub open spec fn plain_node(n: SyncNodeView) -> bool
    decreases n, 0int,
{
    plain_name(n.branch_name) && plain_upto(n.children, n.children.len() as int)
}

/// Whether every branch of the first `k` trees of `ns` has a plain name.
pub open spec fn plain_upto(ns: Seq<SyncNodeView>, k: int) -> bool
    decreases ns, k,
{
    if k <= 0 || k > ns.len() {
        true
    } else {
        plain_upto(ns, k - 1) && plain_node(ns[k - 1])
    }
}

proof fn lemma_glyph_frames(f: nat)
    ensures
        throbber_frame(f).len() == 1,
        is_glyph(throbber_frame(f)[0]),
        throbber_frame(f + 1)[0] == next_glyph(throbber_frame(f)[0]),
{
    reveal_strlit("|");
    reveal_strlit("/");
    reveal_strlit("-");
    reveal_strlit("\\");
    assert((f + 1) % 4 == if f % 4 == 3 { 0 } else { f % 4 + 1 });
}

proof fn lemma_label_tick(n: SyncNodeView)
    requires
        plain_name(n.branch_name),
    ensures
        sync_label(SyncNodeView { status: ticked(n.status).0, ..n }) == advance_glyph(sync_label(n)),
        ticked(n.status).1 == label_in_flight(sync_label(n)),
{
    reveal_strlit("\u{1b}[38;5;208m");
    reveal_strlit("\u{1b}[32m");
    reveal_strlit("\u{1b}[33m");
    reveal_strlit("\u{1b}[31m");
    reveal_strlit(" (#");
    let p = in_flight_prefix();
    assert(p.len() == 11);
    let l = sync_label(n);
    match n.status {
        SyncBranchStatus::InFlight { frame_index, current_commit, total_commits } => {
            let f = frame_index as nat % 4;
            lemma_glyph_frames(f);
            let g = throbber_frame(f);
            let rest = reset_code() + " "@ + paint(Accent::SyncInFlight, branch_text(n.branch_name, n.pull_request_number))
                + progress_text(current_commit, total_commits);
            assert(l =~= p + g + rest);
            assert(l.take(11) =~= p);
            assert(l[11] == g[0]);
            let f2 = ((frame_index + 1) % 4) as usize;
            assert(f2 as nat % 4 == (f + 1) % 4);
            lemma_glyph_frames(f + 1);
            assert(throbber_frame(f + 1) == throbber_frame((f + 1) % 4)) by {
                assert((f + 1) % 4 == ((f + 1) % 4) % 4);
            }
            let g2 = throbber_frame(f2 as nat % 4);
            assert(g2.len() == 1);
            assert(g2[0] == next_glyph(g[0]));
            let l2 = sync_label(SyncNodeView { status: ticked(n.status).0, ..n });
            assert(l2 =~= p + g2 + rest);
            assert(l2 =~= l.update(11, next_glyph(l[11])));
        },
        SyncBranchStatus::Pending => {
            let bt = branch_text(n.branch_name, n.pull_request_number);
            if l.len() > 11 && l.take(11) == p {
                assert(l.take(11)[0] == p[0]);
                if n.branch_name.len() > 0 {
                    assert(l[0] == n.branch_name[0]);
                } else {
                    assert(l[0] == ' ');
                }
            }
        },
        SyncBranchStatus::Succeeded => {
            if l.len() > 11 && l.take(11) == p {
                assert(l.take(11)[3] == p[3]);
            }
        },
        SyncBranchStatus::Deleted => {
            if l.len() > 11 && l.take(11) == p {
                assert(l.take(11)[3] == p[3]);
            }
        },
        SyncBranchStatus::Archived => {
            if l.len() > 11 && l.take(11) == p {
                assert(l.take(11)[3] == p[3]);
            }
        },
    }
}

proof fn lemma_sync_labels_upto(ns: Seq<SyncNodeView>, k: int)
    requires
        0 <= k <= ns.len(),
    ensures
        sync_labels_upto(ns, k).len() == k,
        forall|i: int| 0 <= i < k ==> #[trigger] sync_labels_upto(ns, k)[i] == sync_label_tree(ns[i]),
    decreases k,
{
    if k > 0 {
        lemma_sync_labels_upto(ns, k - 1);
    }
}

proof fn lemma_advance_upto(ts: Seq<LabelTree>, k: int)
    requires
        0 <= k <= ts.len(),
    ensures
        advance_upto(ts, k).len() == k,
        forall|i: int| 0 <= i < k ==> #[trigger] advance_upto(ts, k)[i] == advance_tree(ts[i]),
    decreases k,
{
    if k > 0 {
        lemma_advance_upto(ts, k - 1);
    }
}

proof fn lemma_any_upto(ts: Seq<LabelTree>, k: int)
    requires
        0 <= k <= ts.len(),
    ensures
        any_in_flight_upto(ts, k) == exists|i: int| 0 <= i < k && #[trigger] tree_in_flight(ts[i]),
    decreases k,
{
    if k > 0 {
        lemma_any_upto(ts, k - 1);
        if tree_in_flight(ts[k - 1]) {
            assert(tree_in_flight(ts[k - 1]));
        }
        if exists|i: int| 0 <= i < k && #[trigger] tree_in_flight(ts[i]) {
            let i = choose|i: int| 0 <= i < k && #[trigger] tree_in_flight(ts[i]);
            if i < k - 1 {
                assert(tree_in_flight(ts[i]));
            }
        }
    }
}

proof fn lemma_plain_upto(ns: Seq<SyncNodeView>, k: int)
    requires
        0 <= k <= ns.len(),
        plain_upto(ns, k),
    ensures
        forall|i: int| 0 <= i < k ==> #[trigger] plain_node(ns[i]),
    decreases k,
{
    if k > 0 {
        lemma_plain_upto(ns, k - 1);
    }
}

proof fn lemma_tick_label_tree(n: SyncNodeView)
    requires
        plain_node(n),
    ensures
        sync_label_tree(tick_node(n).0) == advance_tree(sync_label_tree(n)),
        tick_node(n).1 == tree_in_flight(sync_label_tree(n)),
    decreases n, 0int,
{
    let cs = n.children;
    let k = cs.len() as int;
    let t = tick_forest_upto(cs, k).0;
    lemma_label_tick(n);
    lemma_tick_upto(cs, k);
    lemma_plain_upto(cs, k);
    lemma_sync_labels_upto(cs, k);
    lemma_sync_labels_upto(t, k);
    lemma_advance_upto(sync_labels_upto(cs, k), k);
    lemma_any_upto(sync_labels_upto(cs, k), k);
    assert forall|i: int| 0 <= i < k implies #[trigger] sync_labels_upto(t, k)[i] == advance_upto(
        sync_labels_upto(cs, k),
        k,
    )[i] && tick_node(cs[i]).1 == tree_in_flight(sync_label_tree(cs[i])) by {
        lemma_tick_label_tree(cs[i]);
    }
    assert(sync_labels_upto(t, k) =~= advance_upto(sync_labels_upto(cs, k), k));
    let m = tick_node(n).0;
    assert(sync_label(m) == sync_label(SyncNodeView { status: ticked(n.status).0, ..n }));
    if tick_forest_upto(cs, k).1 {
        let i = choose|i: int| 0 <= i < k && #[trigger] tick_node(cs[i]).1;
        lemma_tick_label_tree(cs[i]);
        assert(tree_in_flight(sync_labels_upto(cs, k)[i]));
    }
    if any_in_flight_upto(sync_labels_upto(cs, k), k) {
        let i = choose|i: int| 0 <= i < k && #[trigger] tree_in_flight(sync_labels_upto(cs, k)[i]);
        lemma_tick_label_tree(cs[i]);
        assert(tick_node(cs[i]).1);
    }
}

/// A tick leaves every label as it was but for the labels of rebases under way, whose
/// throbber moves one frame further, their progress kept; it reports a change exactly when
/// some label shows a rebase under way. Branch names must not start with an escape character,
/// which git refuses in branch names anyway.
pub proof fn lemma_tick_labels(ns: Seq<SyncNodeView>)
    requires
        plain_upto(ns, ns.len() as int),
    ensures
        sync_labels(tick_forest_upto(ns, ns.len() as int).0) == advance_labels(sync_labels(ns)),
        tick_forest_upto(ns, ns.len() as int).1 == any_in_flight_upto(sync_labels(ns), ns.len() as int),
{
    let k = ns.len() as int;
    let t = tick_forest_upto(ns, k).0;
    lemma_tick_upto(ns, k);
    lemma_plain_upto(ns, k);
    lemma_sync_labels_upto(ns, k);
    lemma_sync_labels_upto(t, k);
    lemma_advance_upto(sync_labels(ns), k);
    lemma_any_upto(sync_labels(ns), k);
    assert forall|i: int| 0 <= i < k implies #[trigger] sync_labels(t)[i] == advance_labels(sync_labels(ns))[i]
        && tick_node(ns[i]).1 == tree_in_flight(sync_label_tree(ns[i])) by {
        lemma_tick_label_tree(ns[i]);
    }
    assert(sync_labels(t) =~= advance_labels(sync_labels(ns)));
    if tick_forest_upto(ns, k).1 {
        let i = choose|i: int| 0 <= i < k && #[trigger] tick_node(ns[i]).1;
        lemma_tick_label_tree(ns[i]);
        assert(tree_in_flight(sync_labels(ns)[i]));
    }
    if any_in_flight_upto(sync_labels(ns), k) {
        let i = choose|i: int| 0 <= i < k && #[trigger] tree_in_flight(sync_labels(ns)[i]);
        lemma_tick_label_tree(ns[i]);
        assert(tick_node(ns[i]).1);
    }
}

/// The drawn display after a tick is the display before it with the throbber of every label
/// of a rebase under way one frame further; nothing else in the text changes.
pub proof fn lemma_tick_text(root: Option<Seq<char>>, ns: Seq<SyncNodeView>)
    requires
        plain_upto(ns, ns.len() as int),
    ensures
        tree_text(root, sync_labels(tick_forest_upto(ns, ns.len() as int).0)) == tree_text(
            root,
            advance_labels(sync_labels(ns)),
        ),
{
    lemma_tick_labels(ns);
}

} // verus!
