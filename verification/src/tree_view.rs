use vstd::prelude::*;

use crate::ansi::{
    current_branch_marker, current_branch_text, lineage_pipe, lineage_pipe_text,
    non_current_branch_marker, non_current_branch_text, paint, Accent,
};
use crate::graph::{lineage_view, BranchLineageNode};
use crate::layout::{
    connector, child_indent, label_forest, label_tree, lemma_label_forest_push, render_tree,
    tree_text, LabelTree, LabeledTree,
};
use crate::text::{decimal_digits, join, join_spec, push_decimal, push_str, to_owned_string, views};

verus! {

/// The label of the root of a tree view.
#[derive(Debug, Clone, PartialEq, Eq)]
pub struct TreeLabel {
    pub branch_name: String,
    pub is_current: bool,
    pub pull_request_number: Option<u64>,
}

/// A tracked branch in a tree view, with the branches stacked on it.
#[derive(Debug, PartialEq, Eq)]
pub struct TreeNode {
    pub branch_name: String,
    pub is_current: bool,
    pub pull_request_number: Option<u64>,
    pub children: Vec<TreeNode>,
}

/// A tree of tracked branches as the tree command shows it.
#[derive(Debug, PartialEq, Eq)]
pub struct TreeView {
    pub root_label: Option<TreeLabel>,
    pub roots: Vec<TreeNode>,
    pub current_branch_name: Option<String>,
    pub is_current_visible: bool,
    pub current_branch_suffix: Option<String>,
}

/// What the tree command shows: every stack, or the stack of one branch.
#[derive(Debug, Clone, PartialEq, Eq)]
pub struct TreeOptions {
    pub branch_name: Option<String>,
}

/// A branch name with its pull request number, if any: `name (#42)`.
pub open spec fn branch_text(name: Seq<char>, pr: Option<u64>) -> Seq<char> {
    match pr {
        Some(n) => name + " (#"@ + decimal_digits(n as nat) + ")"@,
        None => name,
    }
}

/// The label of a branch: the current branch with the green check mark, any other with a star.
pub open spec fn branch_label(name: Seq<char>, is_current: bool, pr: Option<u64>) -> Seq<char> {
    if is_current {
        paint(Accent::BranchRef, current_branch_marker()) + " "@ + paint(
            Accent::BranchRef,
            branch_text(name, pr),
        )
    } else {
        non_current_branch_marker() + " "@ + branch_text(name, pr)
    }
}

/// Appends a branch name with its pull request number, if any.
pub fn push_branch_text(out: &mut String, name: &str, pr: Option<u64>)
    ensures
        final(out)@ == old(out)@ + branch_text(name@, pr),
{
    push_str(out, name);
    match pr {
        Some(n) => {
            push_str(out, " (#");
            push_decimal(out, n);
            push_str(out, ")");
        },
        None => {},
    }
}

/// A branch name with its pull request number, if any.
pub fn format_branch_text(name: &str, pr: Option<u64>) -> (r: String)
    ensures
        r@ == branch_text(name@, pr),
{
    let mut r = String::new();
    push_branch_text(&mut r, name, pr);
    r
}

/// The label of a branch, marked as current or not.
pub fn format_branch_label(name: &str, is_current: bool, pr: Option<u64>) -> (r: String)
    ensures
        r@ == branch_label(name@, is_current, pr),
{
    let text = format_branch_text(name, pr);
    if is_current {
        let mut r = Accent::BranchRef.paint_ansi(current_branch_text().as_str());
        push_str(&mut r, " ");
        push_str(&mut r, Accent::BranchRef.paint_ansi(text.as_str()).as_str());
        r
    } else {
        let mut r = non_current_branch_text();
        push_str(&mut r, " ");
        push_str(&mut r, text.as_str());
        r
    }
}

/// A tree node with its branch label, as plain values.
pub open spec fn stack_label_tree(n: TreeNode) -> LabelTree
    decreases n, 0int,
{
    LabelTree {
        label: branch_label(n.branch_name@, n.is_current, n.pull_request_number),
        children: stack_forest_upto(n.children@, n.children@.len() as int),
    }
}

/// The first `k` tree nodes of `ns` with their labels, as plain values.
pub open spec fn stack_forest_upto(ns: Seq<TreeNode>, k: int) -> Seq<LabelTree>
    decreases ns, k,
{
    if k <= 0 || k > ns.len() {
        Seq::<LabelTree>::empty()
    } else {
        stack_forest_upto(ns, k - 1).push(stack_label_tree(ns[k - 1]))
    }
}

/// Tree nodes with their labels, as plain values.
pub open spec fn stack_forest(ns: Seq<TreeNode>) -> Seq<LabelTree> {
    stack_forest_upto(ns, ns.len() as int)
}

/// The labelled trees of a forest of tree nodes.
pub fn labeled_stack_forest(nodes: &Vec<TreeNode>) -> (r: Vec<LabeledTree>)
    ensures
        label_forest(r@) == stack_forest(nodes@),
    decreases nodes@,
{
    let mut r: Vec<LabeledTree> = Vec::new();
    let mut i: usize = 0;
    while i < nodes.len()
        invariant
            i <= nodes.len(),
            label_forest(r@) == stack_forest_upto(nodes@, i as int),
        decreases nodes.len() - i,
    {
        let n = &nodes[i];
        proof {
            assert(decreases_to!(nodes@ => nodes@[i as int]));
            assert(decreases_to!(nodes@[i as int] => nodes@[i as int].children));
            assert(decreases_to!(nodes@[i as int].children => nodes@[i as int].children@));
        }
        let t = LabeledTree {
            label: format_branch_label(n.branch_name.as_str(), n.is_current, n.pull_request_number),
            children: labeled_stack_forest(&n.children),
        };
        proof {
            lemma_label_forest_push(r@, t);
            assert(label_tree(t) == stack_label_tree(nodes@[i as int]));
        }
        r.push(t);
        i = i + 1;
    }
    r
}

/// The root label of a tree view, drawn.
pub open spec fn root_label_text(l: Option<TreeLabel>) -> Option<Seq<char>> {
    match l {
        Some(t) => Some(branch_label(t.branch_name@, t.is_current, t.pull_request_number)),
        None => None,
    }
}

/// The text of the tree command: the tree, and below it, after a blank line, the current
/// branch when the tree does not show it.
pub open spec fn stack_tree_text(v: TreeView) -> Seq<char> {
    let body = tree_text(root_label_text(v.root_label), stack_forest(v.roots@));
    match v.current_branch_name {
        Some(name) => if !v.is_current_visible {
            let label = match v.current_branch_suffix {
                Some(suffix) => name@ + " "@ + suffix@,
                None => name@,
            };
            body + "\n\n"@ + paint(Accent::BranchRef, current_branch_marker()) + " "@ + paint(
                Accent::BranchRef,
                label,
            )
        } else {
            body
        },
        None => body,
    }
}

/// Draws the tree of tracked branches.
pub fn render_stack_tree(view: &TreeView) -> (r: String)
    ensures
        r@ == stack_tree_text(*view),
{
    let root = match &view.root_label {
        Some(l) => Some(format_branch_label(l.branch_name.as_str(), l.is_current, l.pull_request_number)),
        None => None,
    };
    let roots = labeled_stack_forest(&view.roots);
    let mut rendered = render_tree(root, &roots);
    if !view.is_current_visible {
        match &view.current_branch_name {
            Some(current_branch) => {
                let mut label = current_branch.clone();
                match &view.current_branch_suffix {
                    Some(suffix) => {
                        push_str(&mut label, " ");
                        push_str(&mut label, suffix.as_str());
                    },
                    None => {},
                }
                push_str(&mut rendered, "\n\n");
                push_str(&mut rendered, Accent::BranchRef.paint_ansi(current_branch_text().as_str()).as_str());
                push_str(&mut rendered, " ");
                push_str(&mut rendered, Accent::BranchRef.paint_ansi(label.as_str()).as_str());
            },
            None => {},
        }
    }
    rendered
}

/// The lines of a lineage: each branch under the one before, with a pipe between, the first
/// marked current.
pub open spec fn lineage_lines_upto(v: Seq<(Seq<char>, Option<u64>)>, k: int) -> Seq<Seq<char>>
    decreases k,
{
    if k <= 0 || k > v.len() {
        Seq::<Seq<char>>::empty()
    } else {
        let i = k - 1;
        let line = branch_label(v[i].0, i == 0, v[i].1);
        let with_line = lineage_lines_upto(v, k - 1).push(line);
        if k < v.len() {
            with_line.push(lineage_pipe() + " "@)
        } else {
            with_line
        }
    }
}

/// The text of a lineage.
pub open spec fn lineage_text(v: Seq<(Seq<char>, Option<u64>)>) -> Seq<char> {
    join_spec(lineage_lines_upto(v, v.len() as int), "\n"@)
}

/// Draws a lineage, the branch first and trunk last, one entry per line.
pub fn render_branch_lineage(lineage: &[BranchLineageNode]) -> (r: String)
    ensures
        r@ == lineage_text(lineage_view(lineage@)),
{
    let ghost v = lineage_view(lineage@);
    let mut lines: Vec<String> = Vec::new();
    let mut i: usize = 0;
    while i < lineage.len()
        invariant
            i <= lineage.len(),
            v == lineage_view(lineage@),
            views(lines@) == lineage_lines_upto(v, i as int),
        decreases lineage.len() - i,
    {
        let branch = &lineage[i];
        let line = format_branch_label(branch.branch_name.as_str(), i == 0, branch.pull_request_number);
        let ghost before = views(lines@);
        lines.push(line);
        if i + 1 < lineage.len() {
            let mut pipe = lineage_pipe_text();
            push_str(&mut pipe, " ");
            lines.push(pipe);
        }
        proof {
            assert(views(lines@) =~= lineage_lines_upto(v, i as int + 1));
        }
        i = i + 1;
    }
    join(&lines, "\n")
}

/// A row of the tree of tracked branches: the branch and its drawn line.
#[derive(Debug, Clone, PartialEq, Eq)]
pub struct StackTreeRow {
    pub branch_name: String,
    pub is_current: bool,
    pub pull_request_number: Option<u64>,
    pub line: String,
}

/// A row as plain values.
pub open spec fn row_view(r: StackTreeRow) -> (Seq<char>, bool, Option<u64>, Seq<char>) {
    (r.branch_name@, r.is_current, r.pull_request_number, r.line@)
}

/// The views of rows.
pub open spec fn rows_view(rs: Seq<StackTreeRow>) -> Seq<(Seq<char>, bool, Option<u64>, Seq<char>)> {
    rs.map_values(|r: StackTreeRow| row_view(r))
}

/// The row of a tree node drawn after `lead`.
pub open spec fn node_row(n: TreeNode, lead: Seq<char>) -> (Seq<char>, bool, Option<u64>, Seq<char>) {
    (
        n.branch_name@,
        n.is_current,
        n.pull_request_number,
        lead + branch_label(n.branch_name@, n.is_current, n.pull_request_number),
    )
}

/// The rows of the first `k` entries of `ns` and everything under them, drawn under `prefix`.
pub open spec fn forest_rows_upto(ns: Seq<TreeNode>, k: int, prefix: Seq<char>) -> Seq<
    (Seq<char>, bool, Option<u64>, Seq<char>),
>
    decreases ns, 1int, k,
{
    if k <= 0 || k > ns.len() {
        Seq::empty()
    } else {
        forest_rows_upto(ns, k - 1, prefix) + entry_rows(ns, k - 1, prefix)
    }
}

/// The rows of entry `i` of `ns` and of everything under it.
pub open spec fn entry_rows(ns: Seq<TreeNode>, i: int, prefix: Seq<char>) -> Seq<
    (Seq<char>, bool, Option<u64>, Seq<char>),
>
    decreases ns, 0int, 0int,
{
    if 0 <= i < ns.len() {
        let is_last = i + 1 == ns.len();
        seq![node_row(ns[i], prefix + connector(is_last))] + forest_rows(
            ns[i].children@,
            prefix + child_indent(is_last),
        )
    } else {
        Seq::empty()
    }
}

/// The rows of a forest drawn under `prefix`, in depth-first order.
pub open spec fn forest_rows(ns: Seq<TreeNode>, prefix: Seq<char>) -> Seq<
    (Seq<char>, bool, Option<u64>, Seq<char>),
>
    decreases ns, 2int, 0int,
{
    forest_rows_upto(ns, ns.len() as int, prefix)
}

/// The rows of a tree view: the root row, if any, then the rows of the forest.
pub open spec fn view_rows(v: TreeView) -> Seq<(Seq<char>, bool, Option<u64>, Seq<char>)> {
    let body = forest_rows(v.roots@, Seq::<char>::empty());
    match v.root_label {
        Some(l) => seq![
            (
                l.branch_name@,
                l.is_current,
                l.pull_request_number,
                branch_label(l.branch_name@, l.is_current, l.pull_request_number),
            ),
        ] + body,
        None => body,
    }
}

fn append_tree_rows(rows: &mut Vec<StackTreeRow>, nodes: &Vec<TreeNode>, prefix: &str)
    ensures
        rows_view(final(rows)@) == rows_view(old(rows)@) + forest_rows(nodes@, prefix@),
    decreases nodes@, 2int, 0int,
{
    let ghost start = rows_view(rows@);
    let mut i: usize = 0;
    while i < nodes.len()
        invariant
            i <= nodes.len(),
            rows_view(rows@) == start + forest_rows_upto(nodes@, i as int, prefix@),
        decreases nodes.len() - i,
    {
        let is_last = i + 1 == nodes.len();
        let node = &nodes[i];
        let mut line = to_owned_string(prefix);
        if is_last {
            push_str(&mut line, "└── ");
        } else {
            push_str(&mut line, "├── ");
        }
        let ghost lead = line@;
        push_str(
            &mut line,
            format_branch_label(node.branch_name.as_str(), node.is_current, node.pull_request_number).as_str(),
        );
        let row = StackTreeRow {
            branch_name: node.branch_name.clone(),
            is_current: node.is_current,
            pull_request_number: node.pull_request_number,
            line,
        };
        let ghost before = rows_view(rows@);
        rows.push(row);
        proof {
            assert(rows_view(rows@) =~= before.push(row_view(row)));
            assert(lead == prefix@ + connector(is_last));
        }
        let mut child_prefix = to_owned_string(prefix);
        if is_last {
            push_str(&mut child_prefix, "    ");
        } else {
            push_str(&mut child_prefix, "│   ");
        }
        proof {
            assert(decreases_to!(nodes@ => nodes@[i as int]));
            assert(decreases_to!(nodes@[i as int] => nodes@[i as int].children));
            assert(decreases_to!(nodes@[i as int].children => nodes@[i as int].children@));
        }
        append_tree_rows(rows, &node.children, child_prefix.as_str());
        proof {
            let e = entry_rows(nodes@, i as int, prefix@);
            assert(child_prefix@ == prefix@ + child_indent(is_last));
            assert(row_view(row) == node_row(nodes@[i as int], prefix@ + connector(is_last)));
            assert(e == seq![row_view(row)] + forest_rows(nodes@[i as int].children@, child_prefix@));
            assert(rows_view(rows@) =~= start + forest_rows_upto(nodes@, i as int + 1, prefix@));
        }
        i = i + 1;
    }
}

/// The rows of the tree of tracked branches, in the order the tree draws them.
pub fn stack_tree_rows(view: &TreeView) -> (r: Vec<StackTreeRow>)
    ensures
        rows_view(r@) == view_rows(*view),
{
    let mut rows: Vec<StackTreeRow> = Vec::new();
    match &view.root_label {
        Some(l) => {
            rows.push(
                StackTreeRow {
                    branch_name: l.branch_name.clone(),
                    is_current: l.is_current,
                    pull_request_number: l.pull_request_number,
                    line: format_branch_label(l.branch_name.as_str(), l.is_current, l.pull_request_number),
                },
            );
        },
        None => {},
    }
    let ghost head = rows_view(rows@);
    append_tree_rows(&mut rows, &view.roots, "");
    proof {
        assert(""@ =~= Seq::<char>::empty()) by {
            reveal_strlit("");
        }
        assert(rows_view(rows@) =~= view_rows(*view));
    }
    rows
}

} // verus!
