use vstd::prelude::*;

use crate::ansi::{current_branch_marker, current_branch_text, lineage_pipe, lineage_pipe_text, paint, Accent};
use crate::text::{join, join_spec, push_str, views};

verus! {

/// The lines of a lineage of branch names: the first one marked current and coloured, a pipe
/// between each two.
pub open spec fn plain_lineage_lines_upto(v: Seq<Seq<char>>, k: int) -> Seq<Seq<char>>
    decreases k,
{
    if k <= 0 || k > v.len() {
        Seq::<Seq<char>>::empty()
    } else {
        let i = k - 1;
        let line = if i == 0 {
            paint(Accent::BranchRef, current_branch_marker()) + " "@ + paint(Accent::BranchRef, v[i])
        } else {
            v[i]
        };
        let with_line = plain_lineage_lines_upto(v, k - 1).push(line);
        if k < v.len() {
            with_line.push(lineage_pipe())
        } else {
            with_line
        }
    }
}

/// Draws a lineage of branch names, the branch first, one per line.
pub fn render_branch_lineage(lineage: &[String]) -> (r: String)
    ensures
        r@ == join_spec(plain_lineage_lines_upto(views(lineage@), lineage@.len() as int), "\n"@),
{
    let ghost v = views(lineage@);
    let mut lines: Vec<String> = Vec::new();
    let mut i: usize = 0;
    while i < lineage.len()
        invariant
            i <= lineage.len(),
            v == views(lineage@),
            views(lines@) == plain_lineage_lines_upto(v, i as int),
        decreases lineage.len() - i,
    {
        let line = if i == 0 {
            let mut l = Accent::BranchRef.paint_ansi(current_branch_text().as_str());
            push_str(&mut l, " ");
            push_str(&mut l, Accent::BranchRef.paint_ansi(lineage[i].as_str()).as_str());
            l
        } else {
            lineage[i].clone()
        };
        lines.push(line);
        if i + 1 < lineage.len() {
            lines.push(lineage_pipe_text());
        }
        proof {
            assert(views(lines@) =~= plain_lineage_lines_upto(v, i as int + 1));
        }
        i = i + 1;
    }
    join(&lines, "\n")
}

} // verus!
