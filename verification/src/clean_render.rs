use vstd::prelude::*;

use crate::clean_apply::CleanApplyOutcome;
use crate::clean_types::{BlockedBranch, CleanBlockReason, CleanCandidate, CleanPlan, CleanReason};
use crate::layout::opt_view;
use crate::summary::{format_restacked_branches, restacked_text};
use crate::error::{push_quoted, quoted};
use crate::restack::RestackPreview;
use crate::text::{
    decimal_digits, join, join_spec, push_decimal, push_str, push_string, str_equal, to_owned_string,
    views,
};

verus! {

/// The line previewing one rebase: `  restack <branch> onto <base>`.
pub open spec fn restack_line(p: RestackPreview) -> Seq<char> {
    "  restack "@ + p.branch_name@ + " onto "@ + p.onto_branch@
}

/// The preview lines of a list of rebases, in order.
pub open spec fn restack_lines(ps: Seq<RestackPreview>) -> Seq<Seq<char>>
    decreases ps.len(),
{
    if ps.len() == 0 {
        Seq::empty()
    } else {
        restack_lines(ps.drop_last()).push(restack_line(ps.last()))
    }
}

/// Whether a candidate belongs to the section of branches missing locally (`deleted`) or to
/// that of merged branches (`!deleted`).
pub open spec fn in_section(c: CleanCandidate, deleted: bool) -> bool {
    if deleted {
        c.reason is DeletedLocally
    } else {
        c.reason is IntegratedIntoParent
    }
}

/// The head line of a candidate in its section.
pub open spec fn candidate_line(c: CleanCandidate) -> Seq<char> {
    match c.reason {
        CleanReason::DeletedLocally => "- "@ + c.branch_name@ + " no longer exists locally"@,
        CleanReason::IntegratedIntoParent { parent_branch } => "- "@ + c.branch_name@ + " merged into "@
            + parent_branch@,
    }
}

/// The lines of the candidates of one section, each followed by its rebase previews.
pub open spec fn section_lines(cs: Seq<CleanCandidate>, deleted: bool) -> Seq<Seq<char>>
    decreases cs.len(),
{
    if cs.len() == 0 {
        Seq::empty()
    } else if in_section(cs.last(), deleted) {
        section_lines(cs.drop_last(), deleted) + seq![candidate_line(cs.last())] + restack_lines(
            cs.last().restack_plan@,
        )
    } else {
        section_lines(cs.drop_last(), deleted)
    }
}

/// A section under its heading, or nothing when it has no lines.
pub open spec fn section(heading: Seq<char>, ls: Seq<Seq<char>>) -> Seq<Seq<char>> {
    if ls.len() == 0 {
        Seq::empty()
    } else {
        seq![join_spec(seq![heading] + ls, "\n"@)]
    }
}

/// The heading of the section of tracked branches missing locally.
pub open spec fn missing_heading() -> Seq<char> {
    "Tracked branches missing locally and ready to stop tracking:"@
}

/// The heading of the section of merged branches.
pub open spec fn merged_heading() -> Seq<char> {
    "Merged branches ready to clean:"@
}

/// Whether the cleanup removes the branch checked out, which then has to be left for trunk.
pub open spec fn switches_away(plan: CleanPlan) -> bool {
    (exists|i: int| 0 <= i < plan.candidates@.len() && #[trigger] plan.candidates@[i].branch_name@ == plan.current_branch@)
        && plan.current_branch@ != plan.trunk_branch@
}

/// The text of a cleanup plan: the section of branches missing locally, then that of merged
/// branches, blank lines between them, and the notice of a switch to trunk last.
pub open spec fn clean_plan_text(plan: CleanPlan) -> Seq<char> {
    let sections = section(missing_heading(), section_lines(plan.candidates@, true)) + section(
        merged_heading(),
        section_lines(plan.candidates@, false),
    );
    let rendered = join_spec(sections, "\n\n"@);
    if switches_away(plan) {
        (if rendered.len() > 0 {
            rendered + "\n\n"@
        } else {
            rendered
        }) + "Will switch from "@ + quoted(plan.current_branch@) + " to "@ + quoted(plan.trunk_branch@)
            + " before cleanup."@
    } else {
        rendered
    }
}

fn push_restack_lines(lines: &mut Vec<String>, ps: &Vec<RestackPreview>)
    ensures
        views(final(lines)@) == views(old(lines)@) + restack_lines(ps@),
{
    let ghost start = views(lines@);
    let mut i: usize = 0;
    while i < ps.len()
        invariant
            i <= ps.len(),
            views(lines@) == start + restack_lines(ps@.take(i as int)),
        decreases ps.len() - i,
    {
        let mut line = to_owned_string("  restack ");
        push_str(&mut line, ps[i].branch_name.as_str());
        push_str(&mut line, " onto ");
        push_str(&mut line, ps[i].onto_branch.as_str());
        push_string(lines, line);
        proof {
            assert(ps@.take(i + 1).drop_last() =~= ps@.take(i as int));
        }
        i = i + 1;
    }
    assert(ps@.take(ps@.len() as int) =~= ps@);
}

fn push_section_lines(lines: &mut Vec<String>, cs: &Vec<CleanCandidate>, deleted: bool)
    ensures
        views(final(lines)@) == views(old(lines)@) + section_lines(cs@, deleted),
{
    let ghost start = views(lines@);
    let mut i: usize = 0;
    while i < cs.len()
        invariant
            i <= cs.len(),
            views(lines@) == start + section_lines(cs@.take(i as int), deleted),
        decreases cs.len() - i,
    {
        let c = &cs[i];
        let ghost before = views(lines@);
        proof {
            assert(cs@.take(i + 1).drop_last() =~= cs@.take(i as int));
            assert(cs@.take(i + 1).last() == cs@[i as int]);
        }
        match &c.reason {
            CleanReason::DeletedLocally => {
                if deleted {
                    let mut line = to_owned_string("- ");
                    push_str(&mut line, c.branch_name.as_str());
                    push_str(&mut line, " no longer exists locally");
                    push_string(lines, line);
                    push_restack_lines(lines, &c.restack_plan);
                    assert(views(lines@) =~= before + seq![candidate_line(*c)] + restack_lines(c.restack_plan@));
                }
            },
            CleanReason::IntegratedIntoParent { parent_branch } => {
                if !deleted {
                    let mut line = to_owned_string("- ");
                    push_str(&mut line, c.branch_name.as_str());
                    push_str(&mut line, " merged into ");
                    push_str(&mut line, parent_branch.as_str());
                    push_string(lines, line);
                    push_restack_lines(lines, &c.restack_plan);
                    assert(views(lines@) =~= before + seq![candidate_line(*c)] + restack_lines(c.restack_plan@));
                }
            },
        }
        i = i + 1;
    }
    assert(cs@.take(cs@.len() as int) =~= cs@);
}

fn push_section(sections: &mut Vec<String>, heading: &str, cs: &Vec<CleanCandidate>, deleted: bool)
    ensures
        views(final(sections)@) == views(old(sections)@) + section(heading@, section_lines(cs@, deleted)),
{
    let mut lines: Vec<String> = Vec::new();
    push_string(&mut lines, to_owned_string(heading));
    push_section_lines(&mut lines, cs, deleted);
    assert(views(lines@).len() == lines@.len());
    if lines.len() > 1 {
        let text = join(&lines, "\n");
        assert(views(lines@) =~= seq![heading@] + section_lines(cs@, deleted));
        let ghost before = views(sections@);
        push_string(sections, text);
        assert(views(sections@) =~= before + section(heading@, section_lines(cs@, deleted)));
    } else {
        assert(section_lines(cs@, deleted).len() == 0);
        assert(section(heading@, section_lines(cs@, deleted)) =~= Seq::<Seq<char>>::empty());
        assert(views(sections@) =~= views(sections@) + Seq::<Seq<char>>::empty());
    }
}

/// The cleanup plan as shown before asking for confirmation.
pub fn format_clean_plan(plan: &CleanPlan) -> (r: String)
    ensures
        r@ == clean_plan_text(*plan),
{
    let mut sections: Vec<String> = Vec::new();
    push_section(&mut sections, "Tracked branches missing locally and ready to stop tracking:", &plan.candidates, true);
    push_section(&mut sections, "Merged branches ready to clean:", &plan.candidates, false);
    assert(views(sections@) =~= section(missing_heading(), section_lines(plan.candidates@, true)) + section(
        merged_heading(),
        section_lines(plan.candidates@, false),
    ));
    let mut rendered = join(&sections, "\n\n");
    if plan.targets_current_branch() && !str_equal(plan.current_branch.as_str(), plan.trunk_branch.as_str()) {
        if rendered.as_str().unicode_len() > 0 {
            push_str(&mut rendered, "\n\n");
        }
        push_str(&mut rendered, "Will switch from ");
        push_quoted(&mut rendered, plan.current_branch.as_str());
        push_str(&mut rendered, " to ");
        push_quoted(&mut rendered, plan.trunk_branch.as_str());
        push_str(&mut rendered, " before cleanup.");
    }
    rendered
}

/// Why a branch cannot be cleaned up, as one sentence.
pub open spec fn blocked_text(b: BlockedBranch) -> Seq<char> {
    let name = quoted(b.branch_name@);
    match b.reason {
        CleanBlockReason::BranchNotTracked => name + " is not tracked by dig."@,
        CleanBlockReason::BranchMissingLocally => name + " is tracked by dig but no longer exists locally."@,
        CleanBlockReason::ParentMissingLocally { parent_branch } => name + " cannot be cleaned because its parent "@
            + quoted(parent_branch@) + " does not exist locally."@,
        CleanBlockReason::ParentMissingFromDig => name
            + " cannot be cleaned because its tracked parent is missing from dig."@,
        CleanBlockReason::NotIntegrated { parent_branch } => name + " is not fully integrated into "@ + quoted(
            parent_branch@,
        ) + "."@,
        CleanBlockReason::DescendantsMissingLocally { branch_names } => name
            + " cannot be cleaned because tracked descendants are missing locally: "@ + join_spec(
            views(branch_names@),
            ", "@,
        ) + "."@,
    }
}

/// The sentence that says why a branch cannot be cleaned up.
pub fn format_blocked_branch(blocked: &BlockedBranch) -> (r: String)
    ensures
        r@ == blocked_text(*blocked),
{
    let mut r = String::new();
    push_quoted(&mut r, blocked.branch_name.as_str());
    match &blocked.reason {
        CleanBlockReason::BranchNotTracked => push_str(&mut r, " is not tracked by dig."),
        CleanBlockReason::BranchMissingLocally => push_str(&mut r, " is tracked by dig but no longer exists locally."),
        CleanBlockReason::ParentMissingLocally { parent_branch } => {
            push_str(&mut r, " cannot be cleaned because its parent ");
            push_quoted(&mut r, parent_branch.as_str());
            push_str(&mut r, " does not exist locally.");
        },
        CleanBlockReason::ParentMissingFromDig => push_str(
            &mut r,
            " cannot be cleaned because its tracked parent is missing from dig.",
        ),
        CleanBlockReason::NotIntegrated { parent_branch } => {
            push_str(&mut r, " is not fully integrated into ");
            push_quoted(&mut r, parent_branch.as_str());
            push_str(&mut r, ".");
        },
        CleanBlockReason::DescendantsMissingLocally { branch_names } => {
            push_str(&mut r, " cannot be cleaned because tracked descendants are missing locally: ");
            let listed = join(branch_names, ", ");
            push_str(&mut r, listed.as_str());
            push_str(&mut r, ".");
        },
    }
    r
}

/// `branch` for one, `branches` otherwise.
pub open spec fn branch_noun(n: nat) -> Seq<char> {
    if n == 1 {
        "branch"@
    } else {
        "branches"@
    }
}

/// The confirmation question before a cleanup, from the numbers of branches missing locally
/// and of merged branches.
pub open spec fn cleanup_prompt_text(missing: nat, merged: nat) -> Seq<char> {
    if missing == 0 {
        "Delete "@ + decimal_digits(merged) + " merged "@ + branch_noun(merged) + "? [y/N] "@
    } else if merged == 0 {
        "Stop tracking "@ + decimal_digits(missing) + " missing "@ + branch_noun(missing) + "? [y/N] "@
    } else {
        "Delete "@ + decimal_digits(merged) + " merged "@ + branch_noun(merged) + " and stop tracking "@
            + decimal_digits(missing) + " missing "@ + branch_noun(missing) + "? [y/N] "@
    }
}

fn push_count(out: &mut String, n: u64, adjective: &str)
    ensures
        final(out)@ == old(out)@ + decimal_digits(n as nat) + adjective@ + branch_noun(n as nat),
{
    push_decimal(out, n);
    push_str(out, adjective);
    if n == 1 {
        push_str(out, "branch");
    } else {
        push_str(out, "branches");
    }
}

/// The confirmation question asked before a cleanup.
pub fn cleanup_prompt(missing_count: u64, merged_count: u64) -> (r: String)
    ensures
        r@ == cleanup_prompt_text(missing_count as nat, merged_count as nat),
{
    let mut r = String::new();
    if missing_count == 0 {
        push_str(&mut r, "Delete ");
        push_count(&mut r, merged_count, " merged ");
    } else if merged_count == 0 {
        push_str(&mut r, "Stop tracking ");
        push_count(&mut r, missing_count, " missing ");
    } else {
        push_str(&mut r, "Delete ");
        push_count(&mut r, merged_count, " merged ");
        push_str(&mut r, " and stop tracking ");
        push_count(&mut r, missing_count, " missing ");
    }
    push_str(&mut r, "? [y/N] ");
    r
}

/// `prev` followed by the block `b`, a blank line between them when both have lines.
pub open spec fn then_block(prev: Seq<Seq<char>>, b: Seq<Seq<char>>) -> Seq<Seq<char>> {
    if b.len() == 0 {
        prev
    } else if prev.len() == 0 {
        b
    } else {
        prev + seq![""@] + b
    }
}

/// A heading and one `- <name>` line per name, or nothing without names.
pub open spec fn name_block(heading: Seq<char>, names: Seq<Seq<char>>) -> Seq<Seq<char>> {
    if names.len() == 0 {
        Seq::empty()
    } else {
        seq![heading] + Seq::new(names.len(), |i: int| "- "@ + names[i])
    }
}

/// The lines a finished cleanup prints: the switches it made, the rebases, the branches no
/// longer tracked and the branches deleted.
pub open spec fn clean_success_lines(
    trunk: Seq<char>,
    switched_from: Option<Seq<char>>,
    restored: Option<Seq<char>>,
    restacked: Seq<RestackPreview>,
    untracked: Seq<Seq<char>>,
    deleted: Seq<Seq<char>>,
) -> Seq<Seq<char>> {
    let head = (match switched_from {
        Some(b) => seq!["Switched from "@ + quoted(b) + " to "@ + quoted(trunk) + " before cleanup."@],
        None => Seq::<Seq<char>>::empty(),
    }) + match restored {
        Some(b) => seq!["Returned to "@ + quoted(b) + " after cleanup."@],
        None => Seq::<Seq<char>>::empty(),
    };
    let with_restacked = then_block(
        head,
        if restacked.len() == 0 {
            Seq::<Seq<char>>::empty()
        } else {
            seq![restacked_text(restacked)]
        },
    );
    then_block(
        then_block(with_restacked, name_block("No longer tracked by dig:"@, untracked)),
        name_block("Deleted:"@, deleted),
    )
}

fn push_block(lines: &mut Vec<String>, block: Vec<String>)
    ensures
        views(final(lines)@) == then_block(views(old(lines)@), views(block@)),
{
    if block.len() == 0 {
        return ;
    }
    if lines.len() > 0 {
        push_string(lines, to_owned_string(""));
    }
    let mut i: usize = 0;
    let ghost start = views(lines@);
    while i < block.len()
        invariant
            i <= block.len(),
            views(lines@) == start + views(block@).take(i as int),
        decreases block.len() - i,
    {
        push_string(lines, block[i].clone());
        proof {
            assert(views(block@).take(i as int + 1) =~= views(block@).take(i as int).push(block@[i as int]@));
        }
        i = i + 1;
    }
    proof {
        assert(views(block@).take(block@.len() as int) =~= views(block@));
        if views(old(lines)@).len() == 0 {
            assert(start == views(old(lines)@));
            assert(start + views(block@) =~= views(block@));
        }
    }
}

fn names_block(heading: &str, names: &Vec<String>) -> (r: Vec<String>)
    ensures
        views(r@) == name_block(heading@, views(names@)),
{
    let mut r: Vec<String> = Vec::new();
    if names.len() == 0 {
        proof {
            assert(views(r@) =~= Seq::<Seq<char>>::empty());
        }
        return r;
    }
    push_string(&mut r, to_owned_string(heading));
    let mut i: usize = 0;
    while i < names.len()
        invariant
            i <= names.len(),
            views(r@) == seq![heading@] + Seq::new(i as nat, |j: int| "- "@ + views(names@)[j]),
        decreases names.len() - i,
    {
        let mut line = to_owned_string("- ");
        push_str(&mut line, names[i].as_str());
        push_string(&mut r, line);
        proof {
            assert(Seq::new((i + 1) as nat, |j: int| "- "@ + views(names@)[j]) =~= Seq::new(
                i as nat,
                |j: int| "- "@ + views(names@)[j],
            ).push("- "@ + views(names@)[i as int]));
        }
        i = i + 1;
    }
    r
}

/// What the clean command prints when a cleanup went through.
pub fn format_clean_success_output(trunk_branch: &str, outcome: &CleanApplyOutcome) -> (r: String)
    ensures
        r@ == join_spec(
            clean_success_lines(
                trunk_branch@,
                opt_view(outcome.switched_to_trunk_from),
                opt_view(outcome.restored_original_branch),
                outcome.restacked_branches@,
                views(outcome.untracked_branches@),
                views(outcome.deleted_branches@),
            ),
            "\n"@,
        ),
{
    let mut lines: Vec<String> = Vec::new();
    if let Some(previous) = &outcome.switched_to_trunk_from {
        let mut line = to_owned_string("Switched from ");
        push_quoted(&mut line, previous.as_str());
        push_str(&mut line, " to ");
        push_quoted(&mut line, trunk_branch);
        push_str(&mut line, " before cleanup.");
        push_string(&mut lines, line);
    }
    if let Some(restored) = &outcome.restored_original_branch {
        let mut line = to_owned_string("Returned to ");
        push_quoted(&mut line, restored.as_str());
        push_str(&mut line, " after cleanup.");
        push_string(&mut lines, line);
    }
    proof {
        assert(views(lines@) =~= (match opt_view(outcome.switched_to_trunk_from) {
            Some(b) => seq!["Switched from "@ + quoted(b) + " to "@ + quoted(trunk_branch@) + " before cleanup."@],
            None => Seq::<Seq<char>>::empty(),
        }) + match opt_view(outcome.restored_original_branch) {
            Some(b) => seq!["Returned to "@ + quoted(b) + " after cleanup."@],
            None => Seq::<Seq<char>>::empty(),
        });
    }
    let mut restacked: Vec<String> = Vec::new();
    if outcome.restacked_branches.len() > 0 {
        push_string(&mut restacked, format_restacked_branches(&outcome.restacked_branches));
    }
    proof {
        if outcome.restacked_branches@.len() == 0 {
            assert(views(restacked@) =~= Seq::<Seq<char>>::empty());
        } else {
            assert(views(restacked@) =~= seq![restacked_text(outcome.restacked_branches@)]);
        }
    }
    push_block(&mut lines, restacked);
    push_block(&mut lines, names_block("No longer tracked by dig:", &outcome.untracked_branches));
    push_block(&mut lines, names_block("Deleted:", &outcome.deleted_branches));
    join(&lines, "\n")
}

} // verus!
