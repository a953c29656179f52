use vstd::prelude::*;

use crate::clean_types::{CleanCandidate, CleanEvent, CleanPlan};
use crate::graph::BranchTreeNode;
use crate::layout::{label_forest, label_tree, lemma_label_forest_push, render_tree, tree_text, LabelTree, LabeledTree};
use crate::ansi::{
    archived_marker, archived_text, deleted_marker, deleted_text, paint, paint_struck, success_marker, success_text,
    throbber_frame, throbber_text, Accent,
};
use crate::restack::RestackPreview;
use crate::sync_render::{
    forest_set_from, lemma_tick_forest_upto, lemma_visual_forest, preview_names, progress_text, set_each_upto,
    set_in_forest, start_in_flight, tick_forest_upto, tick_in_forest, visual_forest, visual_view, StatusUpdate,
    SyncBranchStatus, SyncNodeView, VisualTreeNode,
};
use crate::sync_rows::{
    lemma_same_refl, lemma_tick_rows, lemma_update_rows, same_but_statuses, shows_branch, shows_in_flight, sync_rows,
    ticked_rows,
};
use crate::text::{join, join_spec, push_decimal, push_str, views};

verus! {

/// A branch of a cleanup tree as a pending branch of the display.
pub open spec fn clean_pending_node(t: BranchTreeNode) -> SyncNodeView
    decreases t, 0int,
{
    SyncNodeView {
        branch_name: t.branch_name@,
        pull_request_number: None,
        status: SyncBranchStatus::Pending,
        children: clean_pending_upto(t.children@, t.children@.len() as int),
    }
}

/// The first `k` branches of `ts` as pending branches of the display.
pub open spec fn clean_pending_upto(ts: Seq<BranchTreeNode>, k: int) -> Seq<SyncNodeView>
    decreases ts, k,
{
    if k <= 0 || k > ts.len() {
        Seq::<SyncNodeView>::empty()
    } else {
        clean_pending_upto(ts, k - 1).push(clean_pending_node(ts[k - 1]))
    }
}

/// The branch and the change of its status that a cleanup step shows, if any.
pub open spec fn clean_event_update(e: CleanEvent) -> Option<(Seq<char>, StatusUpdate)> {
    match e {
        CleanEvent::SwitchingToTrunk { .. } => None,
        CleanEvent::SwitchedToTrunk { .. } => None,
        CleanEvent::RebaseStarted { branch_name, .. } => Some(
            (branch_name@, StatusUpdate::Assign(start_in_flight())),
        ),
        CleanEvent::RebaseProgress { branch_name, current_commit, total_commits, .. } => Some(
            (branch_name@, StatusUpdate::Progress(current_commit, total_commits)),
        ),
        CleanEvent::RebaseCompleted { branch_name, .. } => Some(
            (branch_name@, StatusUpdate::Assign(SyncBranchStatus::Succeeded)),
        ),
        CleanEvent::DeleteStarted { branch_name } => Some((branch_name@, StatusUpdate::Assign(start_in_flight()))),
        CleanEvent::DeleteCompleted { branch_name } => Some(
            (branch_name@, StatusUpdate::Assign(SyncBranchStatus::Deleted)),
        ),
        CleanEvent::ArchiveStarted { branch_name } => Some((branch_name@, StatusUpdate::Assign(start_in_flight()))),
        CleanEvent::ArchiveCompleted { branch_name } => Some(
            (branch_name@, StatusUpdate::Assign(SyncBranchStatus::Archived)),
        ),
    }
}

/// The label of a branch of the cleanup display: plain while pending, orange with the throbber
/// and the progress while under way, a green check mark when done, struck through in red with a
/// cross when deleted, struck through in yellow with a tilde when archived.
pub open spec fn clean_label(n: SyncNodeView) -> Seq<char> {
    let name = n.branch_name;
    match n.status {
        SyncBranchStatus::Pending => name,
        SyncBranchStatus::InFlight { frame_index, current_commit, total_commits } => paint(
            Accent::SyncInFlight,
            throbber_frame(frame_index as nat % 4),
        ) + " "@ + paint(Accent::SyncInFlight, name) + progress_text(current_commit, total_commits),
        SyncBranchStatus::Succeeded => paint(Accent::Success, success_marker()) + " "@ + name,
        SyncBranchStatus::Deleted => paint(Accent::Danger, deleted_marker()) + " "@ + paint_struck(Accent::Danger, name),
        SyncBranchStatus::Archived => paint(Accent::TagRef, archived_marker()) + " "@ + paint_struck(
            Accent::TagRef,
            name,
        ),
    }
}

/// A branch of the cleanup display with its label.
pub open spec fn clean_label_tree(n: SyncNodeView) -> LabelTree
    decreases n, 0int,
{
    LabelTree { label: clean_label(n), children: clean_labels_upto(n.children, n.children.len() as int) }
}

/// The first `k` branches of `ns` with their labels.
pub open spec fn clean_labels_upto(ns: Seq<SyncNodeView>, k: int) -> Seq<LabelTree>
    decreases ns, k,
{
    if k <= 0 || k > ns.len() {
        Seq::<LabelTree>::empty()
    } else {
        clean_labels_upto(ns, k - 1).push(clean_label_tree(ns[k - 1]))
    }
}

/// Branches of the cleanup display with their labels.
pub open spec fn clean_labels(ns: Seq<SyncNodeView>) -> Seq<LabelTree> {
    clean_labels_upto(ns, ns.len() as int)
}

fn format_clean_label(node: &VisualTreeNode) -> (r: String)
    ensures
        r@ == clean_label(visual_view(*node)),
{
    let name = node.branch_name.as_str();
    match node.status {
        SyncBranchStatus::Pending => node.branch_name.clone(),
        SyncBranchStatus::InFlight { frame_index, current_commit, total_commits } => {
            let mut r = Accent::SyncInFlight.paint_ansi(throbber_text(frame_index % 4).as_str());
            push_str(&mut r, " ");
            push_str(&mut r, Accent::SyncInFlight.paint_ansi(name).as_str());
            match (current_commit, total_commits) {
                (Some(c), Some(t)) => {
                    push_str(&mut r, " [");
                    push_decimal(&mut r, c as u64);
                    push_str(&mut r, "/");
                    push_decimal(&mut r, t as u64);
                    push_str(&mut r, "]");
                },
                _ => {},
            }
            proof {
                assert((frame_index % 4) as nat % 4 == frame_index as nat % 4);
            }
            r
        },
        SyncBranchStatus::Succeeded => {
            let mut r = Accent::Success.paint_ansi(success_text().as_str());
            push_str(&mut r, " ");
            push_str(&mut r, name);
            r
        },
        SyncBranchStatus::Deleted => {
            let mut r = Accent::Danger.paint_ansi(deleted_text().as_str());
            push_str(&mut r, " ");
            push_str(&mut r, Accent::Danger.paint_struck_ansi(name).as_str());
            r
        },
        SyncBranchStatus::Archived => {
            let mut r = Accent::TagRef.paint_ansi(archived_text().as_str());
            push_str(&mut r, " ");
            push_str(&mut r, Accent::TagRef.paint_struck_ansi(name).as_str());
            r
        },
    }
}

fn labeled_clean_node(n: &VisualTreeNode) -> (r: LabeledTree)
    ensures
        label_tree(r) == clean_label_tree(visual_view(*n)),
    decreases *n, 1int,
{
    proof {
        assert(decreases_to!(*n => n.children));
    }
    let t = LabeledTree { label: format_clean_label(n), children: labeled_clean_forest(&n.children) };
    proof {
        lemma_visual_forest(n.children@);
    }
    t
}

fn labeled_clean_forest(nodes: &Vec<VisualTreeNode>) -> (r: Vec<LabeledTree>)
    ensures
        label_forest(r@) == clean_labels(visual_forest(nodes@)),
    decreases nodes, 0int,
{
    proof {
        lemma_visual_forest(nodes@);
    }
    let mut r: Vec<LabeledTree> = Vec::new();
    let mut i: usize = 0;
    while i < nodes.len()
        invariant
            i <= nodes.len(),
            visual_forest(nodes@).len() == nodes@.len(),
            forall|j: int| 0 <= j < nodes@.len() ==> #[trigger] visual_forest(nodes@)[j] == visual_view(nodes@[j]),
            label_forest(r@) == clean_labels_upto(visual_forest(nodes@), i as int),
        decreases nodes.len() - i,
    {
        proof {
            assert(decreases_to!(nodes => nodes@));
            assert(decreases_to!(nodes@ => nodes@[i as int]));
        }
        let t = labeled_clean_node(&nodes[i]);
        proof {
            lemma_label_forest_push(r@, t);
        }
        r.push(t);
        i = i + 1;
    }
    r
}

/// The branches of a cleanup that resumes: the restacked ones done, the deleted ones deleted,
/// the untracked ones archived, and the active one under way.
pub open spec fn clean_primed(
    ns: Seq<SyncNodeView>,
    restacked: Seq<Seq<char>>,
    deleted: Seq<Seq<char>>,
    untracked: Seq<Seq<char>>,
    active: Seq<char>,
) -> Seq<SyncNodeView> {
    let a = set_each_upto(ns, restacked, restacked.len() as int, StatusUpdate::Assign(SyncBranchStatus::Succeeded));
    let b = set_each_upto(a, deleted, deleted.len() as int, StatusUpdate::Assign(SyncBranchStatus::Deleted));
    let c = set_each_upto(b, untracked, untracked.len() as int, StatusUpdate::Assign(SyncBranchStatus::Archived));
    forest_set_from(c, 0, active, StatusUpdate::Assign(start_in_flight())).0
}

/// What a cleanup step does to the branches of the display, and whether it changed them.
pub open spec fn clean_event_effect(ns: Seq<SyncNodeView>, e: CleanEvent) -> (Seq<SyncNodeView>, bool) {
    match clean_event_update(e) {
        None => (ns, false),
        Some((name, u)) => forest_set_from(ns, 0, name, u),
    }
}

/// The text of one section of the running display: its parent, then its branch tree.
pub open spec fn active_section(label: Seq<char>, root: SyncNodeView) -> Seq<char> {
    tree_text(Some(label), clean_labels(seq![root]))
}

/// The branches a finished section shows under its parent: a removed branch gives way to its
/// children.
pub open spec fn final_section_roots(root: SyncNodeView) -> Seq<LabelTree> {
    if root.status is Deleted || root.status is Archived {
        clean_labels(root.children)
    } else {
        clean_labels(seq![root])
    }
}

/// The text of one section of the finished display.
pub open spec fn final_section(label: Seq<char>, root: SyncNodeView) -> Seq<char> {
    tree_text(Some(label), final_section_roots(root))
}

/// The texts of the sections, running (`!done`) or finished (`done`).
pub open spec fn section_texts(labels: Seq<Seq<char>>, roots: Seq<SyncNodeView>, done: bool) -> Seq<Seq<char>> {
    Seq::new(
        labels.len(),
        |i: int|
            if done {
                final_section(labels[i], roots[i])
            } else {
                active_section(labels[i], roots[i])
            },
    )
}

/// The tree display of a running cleanup: one section per candidate, headed by its parent.
pub struct CleanAnimation {
    labels: Vec<String>,
    roots: Vec<VisualTreeNode>,
}

impl View for CleanAnimation {
    type V = (Seq<Seq<char>>, Seq<SyncNodeView>);

    closed spec fn view(&self) -> (Seq<Seq<char>>, Seq<SyncNodeView>) {
        (views(self.labels@), visual_forest(self.roots@))
    }
}

fn clean_visual_node(t: &BranchTreeNode) -> (r: VisualTreeNode)
    ensures
        visual_view(r) == clean_pending_node(*t),
    decreases *t, 0int,
{
    let mut children: Vec<VisualTreeNode> = Vec::new();
    let mut i: usize = 0;
    while i < t.children.len()
        invariant
            i <= t.children.len(),
            visual_forest(children@) == clean_pending_upto(t.children@, i as int),
        decreases t.children.len() - i,
    {
        proof {
            assert(decreases_to!(*t => t.children));
            assert(decreases_to!(t.children => t.children@));
            assert(decreases_to!(t.children@ => t.children@[i as int]));
        }
        let c = clean_visual_node(&t.children[i]);
        proof {
            lemma_visual_forest(children@);
            lemma_visual_forest(children@.push(c));
            assert(visual_forest(children@.push(c)) =~= visual_forest(children@).push(visual_view(c)));
        }
        children.push(c);
        i = i + 1;
    }
    VisualTreeNode {
        branch_name: t.branch_name.clone(),
        pull_request_number: None,
        status: SyncBranchStatus::Pending,
        children,
    }
}

fn section_text(label: &String, root: &VisualTreeNode, done: bool) -> (r: String)
    ensures
        r@ == if done {
            final_section(label@, visual_view(*root))
        } else {
            active_section(label@, visual_view(*root))
        },
{
    let ghost n = visual_view(*root);
    if done && (root.status == SyncBranchStatus::Deleted || root.status == SyncBranchStatus::Archived) {
        let kids = labeled_clean_forest(&root.children);
        proof {
            lemma_visual_forest(root.children@);
            assert(visual_forest(root.children@) == n.children);
        }
        render_tree(Some(label.clone()), &kids)
    } else {
        let t = labeled_clean_node(root);
        let mut one: Vec<LabeledTree> = Vec::new();
        proof {
            lemma_label_forest_push(one@, t);
            assert(label_forest(one@) =~= Seq::<LabelTree>::empty());
            assert(clean_labels_upto(seq![n], 0) =~= Seq::<LabelTree>::empty());
            assert(clean_labels(seq![n]) =~= seq![clean_label_tree(n)]);
        }
        one.push(t);
        proof {
            assert(label_forest(one@) =~= seq![label_tree(t)]);
        }
        render_tree(Some(label.clone()), &one)
    }
}

impl CleanAnimation {
    /// Whether there is one parent label per section.
    pub closed spec fn wf(&self) -> bool {
        self.labels@.len() == self.roots@.len()
    }

    /// The display of a cleanup plan: one section per candidate, under its parent, every branch
    /// pending.
    pub fn new(plan: &CleanPlan) -> (a: CleanAnimation)
        ensures
            a.wf(),
            a@.0 == plan.candidates@.map_values(|c: CleanCandidate| c.parent_branch_name@),
            a@.1 == plan.candidates@.map_values(|c: CleanCandidate| clean_pending_node(c.tree)),
    {
        let mut labels: Vec<String> = Vec::new();
        let mut roots: Vec<VisualTreeNode> = Vec::new();
        let ghost cs = plan.candidates@;
        let mut i: usize = 0;
        while i < plan.candidates.len()
            invariant
                cs == plan.candidates@,
                i <= cs.len(),
                labels@.len() == i,
                roots@.len() == i,
                views(labels@) == cs.take(i as int).map_values(|c: CleanCandidate| c.parent_branch_name@),
                visual_forest(roots@) == cs.take(i as int).map_values(|c: CleanCandidate| clean_pending_node(c.tree)),
            decreases cs.len() - i,
        {
            let c = &plan.candidates[i];
            let ghost lb = labels@;
            let ghost rb = roots@;
            labels.push(c.parent_branch_name.clone());
            roots.push(clean_visual_node(&c.tree));
            proof {
                assert(cs.take(i as int + 1) =~= cs.take(i as int).push(cs[i as int]));
                assert(views(labels@) =~= views(lb).push(cs[i as int].parent_branch_name@));
                assert(views(labels@) =~= cs.take(i as int + 1).map_values(
                    |c: CleanCandidate| c.parent_branch_name@,
                ));
                lemma_visual_forest(rb);
                lemma_visual_forest(roots@);
                assert(roots@[i as int] == roots@.last());
                assert forall|j: int| 0 <= j < i + 1 implies #[trigger] visual_forest(roots@)[j] == cs.take(
                    i as int + 1,
                ).map_values(|c: CleanCandidate| clean_pending_node(c.tree))[j] by {
                    if j < i {
                        assert(roots@[j] == rb[j]);
                        assert(visual_forest(rb)[j] == cs.take(i as int).map_values(
                            |c: CleanCandidate| clean_pending_node(c.tree),
                        )[j]);
                        assert(cs.take(i as int)[j] == cs.take(i as int + 1)[j]);
                    } else {
                        assert(cs.take(i as int + 1)[j] == cs[i as int]);
                    }
                }
                assert(visual_forest(roots@) =~= cs.take(i as int + 1).map_values(
                    |c: CleanCandidate| clean_pending_node(c.tree),
                ));
            }
            i = i + 1;
        }
        proof {
            assert(cs.take(cs.len() as int) =~= cs);
        }
        CleanAnimation { labels, roots }
    }

    /// Applies a cleanup step to the display, and reports whether it changed: a step about a
    /// branch changes the first section that shows it, and only its status; switching branches
    /// changes nothing.
    pub fn apply_event(&mut self, event: &CleanEvent) -> (changed: bool)
        requires
            old(self).wf(),
        ensures
            final(self).wf(),
            final(self)@.0 == old(self)@.0,
            (final(self)@.1, changed) == clean_event_effect(old(self)@.1, *event),
            match clean_event_update(*event) {
                None => final(self)@ == old(self)@ && !changed,
                Some((name, u)) => (final(self)@.1, changed) == forest_set_from(old(self)@.1, 0, name, u)
                    && changed == shows_branch(sync_rows(old(self)@.1), name),
            },
            same_but_statuses(sync_rows(old(self)@.1), sync_rows(final(self)@.1)),
    {
        proof {
            lemma_visual_forest(self.roots@);
        }
        let update = match event {
            CleanEvent::SwitchingToTrunk { .. } => None,
            CleanEvent::SwitchedToTrunk { .. } => None,
            CleanEvent::RebaseStarted { branch_name, .. } => Some(
                (branch_name, StatusUpdate::Assign(SyncBranchStatus::InFlight { frame_index: 0, current_commit: None, total_commits: None })),
            ),
            CleanEvent::RebaseProgress { branch_name, current_commit, total_commits, .. } => Some(
                (branch_name, StatusUpdate::Progress(*current_commit, *total_commits)),
            ),
            CleanEvent::RebaseCompleted { branch_name, .. } => Some(
                (branch_name, StatusUpdate::Assign(SyncBranchStatus::Succeeded)),
            ),
            CleanEvent::DeleteStarted { branch_name } => Some(
                (branch_name, StatusUpdate::Assign(SyncBranchStatus::InFlight { frame_index: 0, current_commit: None, total_commits: None })),
            ),
            CleanEvent::DeleteCompleted { branch_name } => Some(
                (branch_name, StatusUpdate::Assign(SyncBranchStatus::Deleted)),
            ),
            CleanEvent::ArchiveStarted { branch_name } => Some(
                (branch_name, StatusUpdate::Assign(SyncBranchStatus::InFlight { frame_index: 0, current_commit: None, total_commits: None })),
            ),
            CleanEvent::ArchiveCompleted { branch_name } => Some(
                (branch_name, StatusUpdate::Assign(SyncBranchStatus::Archived)),
            ),
        };
        match update {
            None => {
                proof {
                    lemma_same_refl(sync_rows(self@.1));
                }
                false
            },
            Some((name, u)) => {
                proof {
                    lemma_update_rows(self@.1, name@, u);
                }
                let found = set_in_forest(&mut self.roots, name.as_str(), u);
                proof {
                    lemma_visual_forest(self.roots@);
                    assert(self.roots@.len() == old(self).roots@.len());
                }
                found
            },
        }
    }

    /// Moves every throbber one frame further, and reports whether any moved.
    pub fn tick(&mut self) -> (changed: bool)
        requires
            old(self).wf(),
        ensures
            final(self).wf(),
            final(self)@.0 == old(self)@.0,
            (final(self)@.1, changed) == tick_forest_upto(old(self)@.1, old(self)@.1.len() as int),
            ticked_rows(sync_rows(old(self)@.1), sync_rows(final(self)@.1)),
            changed == shows_in_flight(sync_rows(old(self)@.1)),
    {
        proof {
            lemma_visual_forest(self.roots@);
            lemma_tick_rows(self@.1);
            lemma_tick_forest_upto(self@.1, self@.1.len() as int);
        }
        let changed = tick_in_forest(&mut self.roots);
        proof {
            lemma_visual_forest(self.roots@);
        }
        changed
    }

    /// Shows a cleanup that resumes: the restacked branches done, the deleted ones deleted, the
    /// untracked ones archived, and the active one under way.
    pub fn prime_resume(
        &mut self,
        restacked_branches: &Vec<RestackPreview>,
        deleted_branches: &Vec<String>,
        untracked_branches: &Vec<String>,
        active_branch_name: &str,
    )
        requires
            old(self).wf(),
        ensures
            final(self).wf(),
            final(self)@.0 == old(self)@.0,
            final(self)@.1 == clean_primed(
                old(self)@.1,
                preview_names(restacked_branches@),
                views(deleted_branches@),
                views(untracked_branches@),
                active_branch_name@,
            ),
    {
        let ghost a = self@.1;
        let ghost restacked = preview_names(restacked_branches@);
        let ghost deleted = views(deleted_branches@);
        let ghost untracked = views(untracked_branches@);
        proof {
            lemma_visual_forest(self.roots@);
        }
        let mut i: usize = 0;
        while i < restacked_branches.len()
            invariant
                i <= restacked_branches.len(),
                restacked == preview_names(restacked_branches@),
                self.labels == old(self).labels,
                self.roots@.len() == old(self).roots@.len(),
                self@.1.len() == self.roots@.len(),
                a.len() == old(self).roots@.len(),
                self@.1 == set_each_upto(a, restacked, i as int, StatusUpdate::Assign(SyncBranchStatus::Succeeded)),
            decreases restacked_branches.len() - i,
        {
            proof {
                lemma_update_rows(self@.1, restacked[i as int], StatusUpdate::Assign(SyncBranchStatus::Succeeded));
            }
            set_in_forest(&mut self.roots, restacked_branches[i].branch_name.as_str(), StatusUpdate::Assign(SyncBranchStatus::Succeeded));
            proof {
                lemma_visual_forest(self.roots@);
            }
            i = i + 1;
        }
        let ghost b = self@.1;
        let mut j: usize = 0;
        while j < deleted_branches.len()
            invariant
                j <= deleted_branches.len(),
                deleted == views(deleted_branches@),
                self.labels == old(self).labels,
                self.roots@.len() == old(self).roots@.len(),
                self@.1.len() == self.roots@.len(),
                b.len() == old(self).roots@.len(),
                self@.1 == set_each_upto(b, deleted, j as int, StatusUpdate::Assign(SyncBranchStatus::Deleted)),
            decreases deleted_branches.len() - j,
        {
            proof {
                lemma_update_rows(self@.1, deleted[j as int], StatusUpdate::Assign(SyncBranchStatus::Deleted));
            }
            set_in_forest(&mut self.roots, deleted_branches[j].as_str(), StatusUpdate::Assign(SyncBranchStatus::Deleted));
            proof {
                lemma_visual_forest(self.roots@);
            }
            j = j + 1;
        }
        let ghost c = self@.1;
        let mut k: usize = 0;
        while k < untracked_branches.len()
            invariant
                k <= untracked_branches.len(),
                untracked == views(untracked_branches@),
                self.labels == old(self).labels,
                self.roots@.len() == old(self).roots@.len(),
                self@.1.len() == self.roots@.len(),
                c.len() == old(self).roots@.len(),
                self@.1 == set_each_upto(c, untracked, k as int, StatusUpdate::Assign(SyncBranchStatus::Archived)),
            decreases untracked_branches.len() - k,
        {
            proof {
                lemma_update_rows(self@.1, untracked[k as int], StatusUpdate::Assign(SyncBranchStatus::Archived));
            }
            set_in_forest(&mut self.roots, untracked_branches[k].as_str(), StatusUpdate::Assign(SyncBranchStatus::Archived));
            proof {
                lemma_visual_forest(self.roots@);
            }
            k = k + 1;
        }
        proof {
            lemma_update_rows(self@.1, active_branch_name@, StatusUpdate::Assign(start_in_flight()));
        }
        set_in_forest(
            &mut self.roots,
            active_branch_name,
            StatusUpdate::Assign(SyncBranchStatus::InFlight { frame_index: 0, current_commit: None, total_commits: None }),
        );
        proof {
            lemma_visual_forest(self.roots@);
        }
    }

    /// Draws the display of the running cleanup: the sections, a blank line between two.
    pub fn render_active(&self) -> (r: String)
        requires
            self.wf(),
        ensures
            r@ == join_spec(section_texts(self@.0, self@.1, false), "\n\n"@),
    {
        self.render(false)
    }

    /// Draws the display of the finished cleanup: a deleted or archived branch heading a section
    /// gives way to its children.
    pub fn render_final(&self) -> (r: String)
        requires
            self.wf(),
        ensures
            r@ == join_spec(section_texts(self@.0, self@.1, true), "\n\n"@),
    {
        self.render(true)
    }

    fn render(&self, done: bool) -> (r: String)
        requires
            self.wf(),
        ensures
            r@ == join_spec(section_texts(self@.0, self@.1, done), "\n\n"@),
    {
        proof {
            lemma_visual_forest(self.roots@);
        }
        let mut parts: Vec<String> = Vec::new();
        let mut i: usize = 0;
        while i < self.roots.len()
            invariant
                self.labels@.len() == self.roots@.len(),
                i <= self.roots@.len(),
                parts@.len() == i,
                views(parts@) == section_texts(self@.0, self@.1, done).take(i as int),
                visual_forest(self.roots@).len() == self.roots@.len(),
                forall|j: int| 0 <= j < self.roots@.len() ==> #[trigger] visual_forest(self.roots@)[j] == visual_view(self.roots@[j]),
            decreases self.roots@.len() - i,
        {
            let ghost before = parts@;
            parts.push(section_text(&self.labels[i], &self.roots[i], done));
            proof {
                assert(views(parts@) =~= section_texts(self@.0, self@.1, done).take(i as int + 1)) by {
                    assert(views(parts@).len() == i + 1);
                    assert forall|j: int| 0 <= j < i + 1 implies views(parts@)[j] == section_texts(
                        self@.0,
                        self@.1,
                        done,
                    ).take(i as int + 1)[j] by {
                        if j < i {
                            assert(parts@[j] == before[j]);
                            assert(views(before)[j] == before[j]@);
                        }
                    }
                }
            }
            i = i + 1;
        }
        proof {
            assert(section_texts(self@.0, self@.1, done).take(self.roots@.len() as int) =~= section_texts(
                self@.0,
                self@.1,
                done,
            ));
        }
        join(&parts, "\n\n")
    }
}

} // verus!
