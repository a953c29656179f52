use vstd::prelude::*;

use crate::text::{join, join_spec, push_str, to_owned_string, views};

verus! {

/// A tree whose nodes carry a finished label.
#[derive(Debug)]
pub struct LabeledTree {
    pub label: String,
    pub children: Vec<LabeledTree>,
}

/// A labelled tree as plain values.
pub struct LabelTree {
    pub label: Seq<char>,
    pub children: Seq<LabelTree>,
}

/// The plain value of a labelled tree.
pub open spec fn label_tree(t: LabeledTree) -> LabelTree
    decreases t, 0int,
{
    LabelTree { label: t.label@, children: label_forest_upto(t.children@, t.children@.len() as int) }
}

/// The plain values of the first `k` trees of `ts`.
pub open spec fn label_forest_upto(ts: Seq<LabeledTree>, k: int) -> Seq<LabelTree>
    decreases ts, k,
{
    if k <= 0 || k > ts.len() {
        Seq::<LabelTree>::empty()
    } else {
        label_forest_upto(ts, k - 1).push(label_tree(ts[k - 1]))
    }
}

/// The plain values of a forest.
pub open spec fn label_forest(ts: Seq<LabeledTree>) -> Seq<LabelTree> {
    label_forest_upto(ts, ts.len() as int)
}

/// The plain values of a prefix of a forest, read entry by entry.
pub proof fn lemma_label_forest_upto(ts: Seq<LabeledTree>, k: int)
    requires
        0 <= k <= ts.len(),
    ensures
        label_forest_upto(ts, k).len() == k,
        forall|i: int| 0 <= i < k ==> #[trigger] label_forest_upto(ts, k)[i] == label_tree(ts[i]),
    decreases k,
{
    if k > 0 {
        lemma_label_forest_upto(ts, k - 1);
    }
}

/// A forest read entry by entry.
pub proof fn lemma_label_forest(ts: Seq<LabeledTree>)
    ensures
        label_forest(ts).len() == ts.len(),
        forall|i: int| 0 <= i < ts.len() ==> #[trigger] label_forest(ts)[i] == label_tree(ts[i]),
{
    lemma_label_forest_upto(ts, ts.len() as int);
}

/// A forest with one more tree at the end.
pub proof fn lemma_label_forest_push(ts: Seq<LabeledTree>, t: LabeledTree)
    ensures
        label_forest(ts.push(t)) == label_forest(ts).push(label_tree(t)),
{
    lemma_label_forest(ts);
    lemma_label_forest(ts.push(t));
    assert(label_forest(ts.push(t)) =~= label_forest(ts).push(label_tree(t)));
}

/// The connector in front of an entry of a tree.
pub open spec fn connector(is_last: bool) -> Seq<char> {
    if is_last {
        "└── "@
    } else {
        "├── "@
    }
}

/// The indentation under an entry of a tree.
pub open spec fn child_indent(is_last: bool) -> Seq<char> {
    if is_last {
        "    "@
    } else {
        "│   "@
    }
}

/// The lines of the first `k` entries of `nodes`, each drawn under `prefix`.
pub open spec fn forest_lines_upto(nodes: Seq<LabelTree>, k: int, prefix: Seq<char>) -> Seq<
    Seq<char>,
>
    decreases nodes, 1int, k,
{
    if k <= 0 || k > nodes.len() {
        Seq::<Seq<char>>::empty()
    } else {
        forest_lines_upto(nodes, k - 1, prefix) + entry_lines(nodes, k - 1, prefix)
    }
}

/// The lines of entry `i` of `nodes` and of everything under it.
pub open spec fn entry_lines(nodes: Seq<LabelTree>, i: int, prefix: Seq<char>) -> Seq<Seq<char>>
    decreases nodes, 0int, 0int,
{
    if 0 <= i < nodes.len() {
        let is_last = i + 1 == nodes.len();
        seq![prefix + connector(is_last) + nodes[i].label] + forest_lines(
            nodes[i].children,
            prefix + child_indent(is_last),
        )
    } else {
        Seq::<Seq<char>>::empty()
    }
}

/// The lines of a forest drawn under `prefix`, in depth-first order.
pub open spec fn forest_lines(nodes: Seq<LabelTree>, prefix: Seq<char>) -> Seq<Seq<char>>
    decreases nodes, 2int, 0int,
{
    forest_lines_upto(nodes, nodes.len() as int, prefix)
}

/// The lines of a tree view: the root label, if any, then the forest.
pub open spec fn tree_lines(root_label: Option<Seq<char>>, roots: Seq<LabelTree>) -> Seq<
    Seq<char>,
> {
    match root_label {
        Some(label) => seq![label] + forest_lines(roots, Seq::<char>::empty()),
        None => forest_lines(roots, Seq::<char>::empty()),
    }
}

/// The text of a tree view: its lines joined by line breaks.
pub open spec fn tree_text(root_label: Option<Seq<char>>, roots: Seq<LabelTree>) -> Seq<char> {
    join_spec(tree_lines(root_label, roots), "\n"@)
}

/// The view of an optional string.
pub open spec fn opt_view(s: Option<String>) -> Option<Seq<char>> {
    match s {
        Some(t) => Some(t@),
        None => None,
    }
}

fn connector_text(is_last: bool) -> (r: String)
    ensures
        r@ == connector(is_last),
{
    if is_last {
        to_owned_string("└── ")
    } else {
        to_owned_string("├── ")
    }
}

fn indent_text(is_last: bool) -> (r: String)
    ensures
        r@ == child_indent(is_last),
{
    if is_last {
        to_owned_string("    ")
    } else {
        to_owned_string("│   ")
    }
}

/// Appends the lines of a forest, drawn under `prefix`, to `out`.
pub fn push_forest_lines(out: &mut Vec<String>, nodes: &Vec<LabeledTree>, prefix: &str)
    ensures
        views(final(out)@) == views(old(out)@) + forest_lines(label_forest(nodes@), prefix@),
    decreases nodes@, 2int, 0int,
{
    let ghost start = views(out@);
    let ghost lf = label_forest(nodes@);
    proof {
        lemma_label_forest(nodes@);
    }
    let mut i: usize = 0;
    while i < nodes.len()
        invariant
            i <= nodes.len(),
            lf == label_forest(nodes@),
            lf.len() == nodes@.len(),
            forall|j: int| 0 <= j < nodes@.len() ==> #[trigger] lf[j] == label_tree(nodes@[j]),
            views(out@) == start + forest_lines_upto(lf, i as int, prefix@),
        decreases nodes.len() - i,
    {
        let is_last = i + 1 == nodes.len();
        let mut line = to_owned_string(prefix);
        push_str(&mut line, connector_text(is_last).as_str());
        push_str(&mut line, nodes[i].label.as_str());
        let ghost before = views(out@);
        out.push(line);
        proof {
            assert(views(out@) =~= before.push(line@));
        }
        let mut child_prefix = to_owned_string(prefix);
        push_str(&mut child_prefix, indent_text(is_last).as_str());
        proof {
            assert(decreases_to!(nodes@ => nodes@[i as int]));
            assert(decreases_to!(nodes@[i as int] => nodes@[i as int].children));
            assert(decreases_to!(nodes@[i as int].children => nodes@[i as int].children@));
        }
        push_forest_lines(out, &nodes[i].children, child_prefix.as_str());
        proof {
            let e = entry_lines(lf, i as int, prefix@);
            assert(lf[i as int] == label_tree(nodes@[i as int]));
            assert(lf[i as int].children == label_forest(nodes@[i as int].children@));
            assert(line@ == prefix@ + connector(is_last) + lf[i as int].label);
            assert(e == seq![line@] + forest_lines(label_forest(nodes@[i as int].children@), child_prefix@));
            assert(forest_lines_upto(lf, i as int + 1, prefix@) == forest_lines_upto(
                lf,
                i as int,
                prefix@,
            ) + e);
            assert(views(out@) =~= start + forest_lines_upto(lf, i as int + 1, prefix@));
        }
        i = i + 1;
    }
}

/// Draws a tree view: the root label, if any, on the first line, then every entry under it
/// with its connector.
pub fn render_tree(root_label: Option<String>, roots: &Vec<LabeledTree>) -> (r: String)
    ensures
        r@ == tree_text(opt_view(root_label), label_forest(roots@)),
{
    let mut lines: Vec<String> = Vec::new();
    let ghost label = opt_view(root_label);
    match root_label {
        Some(l) => {
            lines.push(l);
        },
        None => {},
    }
    proof {
        assert(views(lines@) =~= match label {
            Some(l) => seq![l],
            None => Seq::<Seq<char>>::empty(),
        });
    }
    push_forest_lines(&mut lines, roots, "");
    proof {
        assert(""@ =~= Seq::<char>::empty()) by {
            reveal_strlit("");
        }
        assert(views(lines@) =~= tree_lines(label, label_forest(roots@)));
    }
    join(&lines, "\n")
}

} // verus!
