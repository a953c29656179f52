use vstd::prelude::*;

use crate::branch::opt_str_view;
use crate::error::{push_quoted, quoted};
use crate::merge::MergePlan;
use crate::restack::RestackPreview;
use crate::text::{join, join_spec, push_str, push_string, to_owned_string, trim, trim_spec, views};

verus! {

/// Sections of command output joined with a blank line between each two.
pub fn join_sections(sections: &Vec<String>) -> (r: String)
    ensures
        r@ == join_spec(views(sections@), "\n\n"@),
{
    join(sections, "\n\n")
}

/// The line of one rebase that was carried out: `- <branch> onto <base>`.
pub open spec fn restacked_line(p: RestackPreview) -> Seq<char> {
    "- "@ + p.branch_name@ + " onto "@ + p.onto_branch@
}

/// The lines of the rebases carried out, in order.
pub open spec fn restacked_lines(ps: Seq<RestackPreview>) -> Seq<Seq<char>> {
    Seq::new(ps.len(), |i: int| restacked_line(ps[i]))
}

/// The list of rebases carried out, under the heading `Restacked:`.
pub open spec fn restacked_text(ps: Seq<RestackPreview>) -> Seq<char> {
    join_spec(seq!["Restacked:"@] + restacked_lines(ps), "\n"@)
}

/// The list of rebases a command carried out.
pub fn format_restacked_branches(previews: &Vec<RestackPreview>) -> (r: String)
    ensures
        r@ == restacked_text(previews@),
{
    let mut ls: Vec<String> = Vec::new();
    push_string(&mut ls, to_owned_string("Restacked:"));
    let mut i: usize = 0;
    while i < previews.len()
        invariant
            i <= previews.len(),
            views(ls@) == seq!["Restacked:"@] + restacked_lines(previews@.take(i as int)),
        decreases previews.len() - i,
    {
        let mut line = to_owned_string("- ");
        push_str(&mut line, previews[i].branch_name.as_str());
        push_str(&mut line, " onto ");
        push_str(&mut line, previews[i].onto_branch.as_str());
        push_string(&mut ls, line);
        proof {
            assert(views(ls@) =~= seq!["Restacked:"@] + restacked_lines(previews@.take(i + 1)));
        }
        i = i + 1;
    }
    assert(previews@.take(previews@.len() as int) =~= previews@);
    join(&ls, "\n")
}

/// The tree shown under a summary, unless it is blank.
pub open spec fn tree_section(tree: Seq<char>) -> Seq<Seq<char>> {
    if trim_spec(tree).len() == 0 {
        Seq::empty()
    } else {
        seq![tree]
    }
}

/// The section listing the rebases carried out, when there were any.
pub open spec fn restacked_section(ps: Seq<RestackPreview>) -> Seq<Seq<char>> {
    if ps.len() == 0 {
        Seq::empty()
    } else {
        seq![restacked_text(ps)]
    }
}

/// The line that says which branch was checked out again after a command.
pub open spec fn returned_lines(restored: Option<Seq<char>>, after: Seq<char>) -> Seq<Seq<char>> {
    match restored {
        Some(b) => seq!["Returned to "@ + quoted(b) + " after "@ + after + "."@],
        None => Seq::empty(),
    }
}

fn push_returned_line(ls: &mut Vec<String>, restored: Option<&str>, after: &str)
    ensures
        views(final(ls)@) == views(old(ls)@) + returned_lines(opt_str_view(restored), after@),
{
    if let Some(b) = restored {
        let mut line = to_owned_string("Returned to ");
        push_quoted(&mut line, b);
        push_str(&mut line, " after ");
        push_str(&mut line, after);
        push_str(&mut line, ".");
        push_string(ls, line);
    } else {
        assert(views(ls@) =~= views(ls@) + Seq::<Seq<char>>::empty());
    }
}

fn push_tree_section(sections: &mut Vec<String>, tree: &str)
    ensures
        views(final(sections)@) == views(old(sections)@) + tree_section(tree@),
{
    let t = trim(tree);
    if t.as_str().unicode_len() > 0 {
        push_string(sections, to_owned_string(tree));
    } else {
        assert(views(sections@) =~= views(sections@) + Seq::<Seq<char>>::empty());
    }
}

fn push_restacked_section(sections: &mut Vec<String>, previews: &Vec<RestackPreview>)
    ensures
        views(final(sections)@) == views(old(sections)@) + restacked_section(previews@),
{
    if previews.len() > 0 {
        push_string(sections, format_restacked_branches(previews));
    } else {
        assert(views(sections@) =~= views(sections@) + Seq::<Seq<char>>::empty());
    }
}

/// What the adopt command prints after adopting a branch: what it did, then the tree.
pub open spec fn adopt_success_text(
    branch: Seq<char>,
    parent: Seq<char>,
    restacked: bool,
    restored: Option<Seq<char>>,
    tree: Seq<char>,
) -> Seq<char> {
    let summary = seq!["Adopted "@ + quoted(branch) + " under "@ + quoted(parent) + "."@] + (if restacked {
        seq!["Restacked "@ + quoted(branch) + " onto "@ + quoted(parent) + "."@]
    } else {
        Seq::empty()
    }) + returned_lines(restored, "adopt"@);
    join_spec(seq![join_spec(summary, "\n"@)] + tree_section(tree), "\n\n"@)
}

/// The text the adopt command prints after adopting a branch.
pub fn format_adopt_success_output(
    branch_name: &str,
    parent_branch_name: &str,
    restacked: bool,
    restored_original_branch: Option<&str>,
    rendered_tree: &str,
) -> (r: String)
    ensures
        r@ == adopt_success_text(
            branch_name@,
            parent_branch_name@,
            restacked,
            opt_str_view(restored_original_branch),
            rendered_tree@,
        ),
{
    let mut summary: Vec<String> = Vec::new();
    let mut first = to_owned_string("Adopted ");
    push_quoted(&mut first, branch_name);
    push_str(&mut first, " under ");
    push_quoted(&mut first, parent_branch_name);
    push_str(&mut first, ".");
    push_string(&mut summary, first);
    let ghost after_first = views(summary@);
    if restacked {
        let mut line = to_owned_string("Restacked ");
        push_quoted(&mut line, branch_name);
        push_str(&mut line, " onto ");
        push_quoted(&mut line, parent_branch_name);
        push_str(&mut line, ".");
        push_string(&mut summary, line);
    }
    push_returned_line(&mut summary, restored_original_branch, "adopt");
    proof {
        let lead = seq!["Adopted "@ + quoted(branch_name@) + " under "@ + quoted(parent_branch_name@) + "."@];
        assert(after_first =~= lead);
        assert(views(summary@) =~= lead + (if restacked {
            seq!["Restacked "@ + quoted(branch_name@) + " onto "@ + quoted(parent_branch_name@) + "."@]
        } else {
            Seq::<Seq<char>>::empty()
        }) + returned_lines(opt_str_view(restored_original_branch), "adopt"@));
    }
    let mut sections: Vec<String> = Vec::new();
    push_string(&mut sections, join(&summary, "\n"));
    assert(views(sections@) =~= seq![join_spec(views(summary@), "\n"@)]);
    push_tree_section(&mut sections, rendered_tree);
    join_sections(&sections)
}

/// What the orphan command prints: what it did, the rebases it carried out, then the tree.
pub open spec fn orphan_success_text(
    branch: Seq<char>,
    restacked: Seq<RestackPreview>,
    restored: Option<Seq<char>>,
    tree: Seq<char>,
) -> Seq<char> {
    let summary = seq!["Orphaned "@ + quoted(branch) + ". It is no longer tracked by dig."@] + returned_lines(
        restored,
        "orphaning"@,
    );
    join_spec(seq![join_spec(summary, "\n"@)] + restacked_section(restacked) + tree_section(tree), "\n\n"@)
}

/// The text the orphan command prints after it stops tracking a branch.
pub fn format_orphan_success_output(
    branch_name: &str,
    restacked_branches: &Vec<RestackPreview>,
    restored_original_branch: Option<&str>,
    rendered_tree: &str,
) -> (r: String)
    ensures
        r@ == orphan_success_text(
            branch_name@,
            restacked_branches@,
            opt_str_view(restored_original_branch),
            rendered_tree@,
        ),
{
    let mut summary: Vec<String> = Vec::new();
    let mut first = to_owned_string("Orphaned ");
    push_quoted(&mut first, branch_name);
    push_str(&mut first, ". It is no longer tracked by dig.");
    push_string(&mut summary, first);
    assert(views(summary@) =~= seq!["Orphaned "@ + quoted(branch_name@) + ". It is no longer tracked by dig."@]);
    push_returned_line(&mut summary, restored_original_branch, "orphaning");
    let mut sections: Vec<String> = Vec::new();
    push_string(&mut sections, join(&summary, "\n"));
    assert(views(sections@) =~= seq![join_spec(views(summary@), "\n"@)]);
    push_restacked_section(&mut sections, restacked_branches);
    push_tree_section(&mut sections, rendered_tree);
    join_sections(&sections)
}

/// What the reparent command prints: what it did, the rebases it carried out, then the tree.
pub open spec fn reparent_success_text(
    branch: Seq<char>,
    parent: Seq<char>,
    restacked: Seq<RestackPreview>,
    restored: Option<Seq<char>>,
    tree: Seq<char>,
) -> Seq<char> {
    let summary = seq!["Reparented "@ + quoted(branch) + " onto "@ + quoted(parent) + "."@] + returned_lines(
        restored,
        "reparenting"@,
    );
    join_spec(seq![join_spec(summary, "\n"@)] + restacked_section(restacked) + tree_section(tree), "\n\n"@)
}

/// The text the reparent command prints after moving a branch.
pub fn format_reparent_success_output(
    branch_name: &str,
    parent_branch_name: &str,
    restacked_branches: &Vec<RestackPreview>,
    restored_original_branch: Option<&str>,
    rendered_tree: &str,
) -> (r: String)
    ensures
        r@ == reparent_success_text(
            branch_name@,
            parent_branch_name@,
            restacked_branches@,
            opt_str_view(restored_original_branch),
            rendered_tree@,
        ),
{
    let mut summary: Vec<String> = Vec::new();
    let mut first = to_owned_string("Reparented ");
    push_quoted(&mut first, branch_name);
    push_str(&mut first, " onto ");
    push_quoted(&mut first, parent_branch_name);
    push_str(&mut first, ".");
    push_string(&mut summary, first);
    assert(views(summary@) =~= seq!["Reparented "@ + quoted(branch_name@) + " onto "@ + quoted(parent_branch_name@) + "."@]);
    push_returned_line(&mut summary, restored_original_branch, "reparenting");
    let mut sections: Vec<String> = Vec::new();
    push_string(&mut sections, join(&summary, "\n"));
    assert(views(sections@) =~= seq![join_spec(views(summary@), "\n"@)]);
    push_restacked_section(&mut sections, restacked_branches);
    push_tree_section(&mut sections, rendered_tree);
    join_sections(&sections)
}

/// The line of one rebase a merge plan announces: `  restack <branch> onto <base>`.
pub open spec fn merge_restack_line(p: RestackPreview) -> Seq<char> {
    "  restack "@ + p.branch_name@ + " onto "@ + p.onto_branch@
}

/// The lines of a merge plan: the merge, the rebases it brings, and the checkout it needs.
pub open spec fn merge_plan_lines(
    source: Seq<char>,
    target: Seq<char>,
    current: Seq<char>,
    ps: Seq<RestackPreview>,
) -> Seq<Seq<char>> {
    seq!["Merge plan:"@, "- "@ + source + " into "@ + target] + Seq::new(
        ps.len(),
        |i: int| merge_restack_line(ps[i]),
    ) + if current != target {
        seq![""@, "Will switch from "@ + quoted(current) + " to "@ + quoted(target) + " before merge."@]
    } else {
        Seq::<Seq<char>>::empty()
    }
}

/// The announcement of a merge plan, one line each.
pub fn format_merge_plan(plan: &MergePlan) -> (r: String)
    ensures
        r@ == join_spec(
            merge_plan_lines(
                plan.source_branch_name@,
                plan.target_branch_name@,
                plan.current_branch@,
                plan.restack_plan@,
            ),
            "\n"@,
        ),
{
    let mut lines: Vec<String> = Vec::new();
    push_string(&mut lines, to_owned_string("Merge plan:"));
    let mut first = to_owned_string("- ");
    push_str(&mut first, plan.source_branch_name.as_str());
    push_str(&mut first, " into ");
    push_str(&mut first, plan.target_branch_name.as_str());
    push_string(&mut lines, first);
    let ghost head = views(lines@);
    let ps = &plan.restack_plan;
    let mut i: usize = 0;
    while i < ps.len()
        invariant
            i <= ps.len(),
            views(lines@) == head + Seq::new(i as nat, |j: int| merge_restack_line(ps@[j])),
        decreases ps.len() - i,
    {
        let mut line = to_owned_string("  restack ");
        push_str(&mut line, ps[i].branch_name.as_str());
        push_str(&mut line, " onto ");
        push_str(&mut line, ps[i].onto_branch.as_str());
        push_string(&mut lines, line);
        proof {
            assert(Seq::new((i + 1) as nat, |j: int| merge_restack_line(ps@[j])) =~= Seq::new(
                i as nat,
                |j: int| merge_restack_line(ps@[j]),
            ).push(merge_restack_line(ps@[i as int])));
        }
        i = i + 1;
    }
    let ghost middle = views(lines@);
    if plan.requires_target_checkout() {
        push_string(&mut lines, to_owned_string(""));
        let mut line = to_owned_string("Will switch from ");
        push_quoted(&mut line, plan.current_branch.as_str());
        push_str(&mut line, " to ");
        push_quoted(&mut line, plan.target_branch_name.as_str());
        push_str(&mut line, " before merge.");
        push_string(&mut lines, line);
    }
    proof {
        assert(views(lines@) =~= merge_plan_lines(
            plan.source_branch_name@,
            plan.target_branch_name@,
            plan.current_branch@,
            plan.restack_plan@,
        ));
    }
    join(&lines, "\n")
}

/// The summary lines after a merge: the checkout it needed, the merge, the rebases, and
/// whether the merged branch was deleted or kept.
pub open spec fn merge_summary_lines(
    source: Seq<char>,
    target: Seq<char>,
    switched_from: Option<Seq<char>>,
    restacked: Seq<RestackPreview>,
    deleted: Option<Seq<char>>,
) -> Seq<Seq<char>> {
    (match switched_from {
        Some(b) => seq!["Switched from "@ + quoted(b) + " to "@ + quoted(target) + " before merge."@],
        None => Seq::<Seq<char>>::empty(),
    }) + seq!["Merged "@ + quoted(source) + " into "@ + quoted(target) + "."@] + (if restacked.len() == 0 {
        Seq::<Seq<char>>::empty()
    } else {
        seq![""@, restacked_text(restacked)]
    }) + match deleted {
        Some(b) => seq![""@, "Deleted:"@, "- "@ + b],
        None => seq![""@, "Kept merged branch "@ + quoted(source) + "."@],
    }
}

/// What the merge command prints when it is done: the summary, then the tree.
pub open spec fn merge_success_text(
    source: Seq<char>,
    target: Seq<char>,
    switched_from: Option<Seq<char>>,
    restacked: Seq<RestackPreview>,
    deleted: Option<Seq<char>>,
    tree: Seq<char>,
) -> Seq<char> {
    join_spec(
        seq![join_spec(merge_summary_lines(source, target, switched_from, restacked, deleted), "\n"@)]
            + tree_section(tree),
        "\n\n"@,
    )
}

/// The text the merge command prints after a merge, also after one resumed later.
pub fn format_merge_resume_success_output(
    source_branch_name: &str,
    target_branch_name: &str,
    switched_to_target_from: Option<&str>,
    restacked_branches: &Vec<RestackPreview>,
    deleted_branch_name: Option<&str>,
    rendered_tree: &str,
) -> (r: String)
    ensures
        r@ == merge_success_text(
            source_branch_name@,
            target_branch_name@,
            opt_str_view(switched_to_target_from),
            restacked_branches@,
            opt_str_view(deleted_branch_name),
            rendered_tree@,
        ),
{
    let mut summary: Vec<String> = Vec::new();
    if let Some(previous) = switched_to_target_from {
        let mut line = to_owned_string("Switched from ");
        push_quoted(&mut line, previous);
        push_str(&mut line, " to ");
        push_quoted(&mut line, target_branch_name);
        push_str(&mut line, " before merge.");
        push_string(&mut summary, line);
    }
    let mut merged = to_owned_string("Merged ");
    push_quoted(&mut merged, source_branch_name);
    push_str(&mut merged, " into ");
    push_quoted(&mut merged, target_branch_name);
    push_str(&mut merged, ".");
    push_string(&mut summary, merged);
    if restacked_branches.len() > 0 {
        push_string(&mut summary, to_owned_string(""));
        push_string(&mut summary, format_restacked_branches(restacked_branches));
    }
    match deleted_branch_name {
        Some(b) => {
            push_string(&mut summary, to_owned_string(""));
            push_string(&mut summary, to_owned_string("Deleted:"));
            let mut line = to_owned_string("- ");
            push_str(&mut line, b);
            push_string(&mut summary, line);
        },
        None => {
            push_string(&mut summary, to_owned_string(""));
            let mut line = to_owned_string("Kept merged branch ");
            push_quoted(&mut line, source_branch_name);
            push_str(&mut line, ".");
            push_string(&mut summary, line);
        },
    }
    proof {
        assert(views(summary@) =~= merge_summary_lines(
            source_branch_name@,
            target_branch_name@,
            opt_str_view(switched_to_target_from),
            restacked_branches@,
            opt_str_view(deleted_branch_name),
        ));
    }
    let mut sections: Vec<String> = Vec::new();
    push_string(&mut sections, join(&summary, "\n"));
    assert(views(sections@) =~= seq![join_spec(views(summary@), "\n"@)]);
    push_tree_section(&mut sections, rendered_tree);
    join_sections(&sections)
}

/// The text the merge command prints after carrying out a plan.
pub fn format_merge_success_output(
    plan: &MergePlan,
    switched_to_target_from: Option<&str>,
    restacked_branches: &Vec<RestackPreview>,
    deleted_branch_name: Option<&str>,
    rendered_tree: &str,
) -> (r: String)
    ensures
        r@ == merge_success_text(
            plan.source_branch_name@,
            plan.target_branch_name@,
            opt_str_view(switched_to_target_from),
            restacked_branches@,
            opt_str_view(deleted_branch_name),
            rendered_tree@,
        ),
{
    format_merge_resume_success_output(
        plan.source_branch_name.as_str(),
        plan.target_branch_name.as_str(),
        switched_to_target_from,
        restacked_branches,
        deleted_branch_name,
        rendered_tree,
    )
}

/// The failure when a command finished its work but could not check out the original branch
/// again.
pub fn failed_return_message(command_name: &str, original_branch: &str) -> (r: String)
    ensures
        r@ == command_name@ + " completed, but failed to return to "@ + quoted(original_branch@),
{
    let mut r = to_owned_string(command_name);
    push_str(&mut r, " completed, but failed to return to ");
    push_quoted(&mut r, original_branch);
    r
}

} // verus!
