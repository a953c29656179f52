use vstd::prelude::*;

use crate::branch::{blank_name_error, blank_name_failure, branch_exists, branch_exists_spec, named_error, named_failure};
use crate::error::{DigError, ErrorKind};
use crate::git::CommitMetadata;
use crate::graph::{
    children_spec, cycle_message, descendant_missing, refused_for_missing, require_local_descendants, subtree_view,
    subtree_walk, BranchGraph, BranchTreeNode, SubtreeFailure,
};
use crate::model::{branch_not_found_message, node_named, parent_name_spec, BranchNode, DigConfig, DigState};
use crate::restack::{
    action_views, deleted_list, plan_after_deleted_branch, previews_for_actions, previews_match, PlanError, RepoFacts,
    RestackBaseTarget, RestackPreview,
};
use crate::text::{copy_strings, join, join_spec, push_str, push_string, str_equal, to_owned_string, trim, trim_spec, views};

verus! {

/// How a branch is merged into its base.
#[derive(Debug, Clone, Copy, PartialEq, Eq, Structural)]
pub enum MergeMode {
    Normal,
    Squash,
}

/// What the merge command merges, and how.
#[derive(Debug, Clone, PartialEq, Eq)]
pub struct MergeOptions {
    pub branch_name: String,
    pub mode: MergeMode,
    pub messages: Vec<String>,
}

/// The listing of a commit in a squash message: `commit <sha>` and its subject indented.
pub open spec fn commit_block(c: CommitMetadata) -> Seq<char> {
    "commit "@ + c.sha@ + "\n    "@ + c.subject@
}

/// The paragraphs of a squash message: the given messages, or a `merge <source> into <target>`
/// line without them, then one block per commit.
pub open spec fn squash_paragraphs(
    source: Seq<char>,
    target: Seq<char>,
    messages: Seq<Seq<char>>,
    commits: Seq<CommitMetadata>,
) -> Seq<Seq<char>> {
    let head = if messages.len() == 0 {
        seq!["merge "@ + source + " into "@ + target]
    } else {
        messages
    };
    head + commits.map_values(|c: CommitMetadata| commit_block(c))
}

/// The message of a squash merge: its paragraphs separated by blank lines.
pub fn build_squash_commit_message(
    source_branch_name: &str,
    target_branch_name: &str,
    messages: &[String],
    commits: &[CommitMetadata],
) -> (r: String)
    ensures
        r@ == join_spec(
            squash_paragraphs(source_branch_name@, target_branch_name@, views(messages@), commits@),
            "\n\n"@,
        ),
{
    let mut paragraphs: Vec<String> = Vec::new();
    proof {
        assert(views(paragraphs@) =~= Seq::<Seq<char>>::empty());
    }
    if messages.len() == 0 {
        let mut head = to_owned_string("merge ");
        push_str(&mut head, source_branch_name);
        push_str(&mut head, " into ");
        push_str(&mut head, target_branch_name);
        push_string(&mut paragraphs, head);
        proof {
            assert(views(paragraphs@) =~= seq!["merge "@ + source_branch_name@ + " into "@ + target_branch_name@]);
        }
    } else {
        let mut i: usize = 0;
        while i < messages.len()
            invariant
                i <= messages.len(),
                views(paragraphs@) == views(messages@).take(i as int),
            decreases messages.len() - i,
        {
            push_string(&mut paragraphs, messages[i].clone());
            proof {
                assert(views(messages@)[i as int] == messages@[i as int]@);
                assert(views(messages@).take(i as int + 1) =~= views(messages@).take(i as int).push(messages@[i as int]@));
            }
            i = i + 1;
        }
        proof {
            assert(views(messages@).take(messages@.len() as int) =~= views(messages@));
        }
    }
    let ghost head = views(paragraphs@);
    let mut j: usize = 0;
    while j < commits.len()
        invariant
            j <= commits.len(),
            views(paragraphs@) == head + commits@.take(j as int).map_values(|c: CommitMetadata| commit_block(c)),
        decreases commits.len() - j,
    {
        let mut block = to_owned_string("commit ");
        push_str(&mut block, commits[j].sha.as_str());
        push_str(&mut block, "\n    ");
        push_str(&mut block, commits[j].subject.as_str());
        let ghost bv = block@;
        push_string(&mut paragraphs, block);
        proof {
            assert(bv == commit_block(commits@[j as int]));
            assert(commits@.take(j as int + 1).map_values(|c: CommitMetadata| commit_block(c)) =~= commits@.take(
                j as int,
            ).map_values(|c: CommitMetadata| commit_block(c)).push(bv));
            assert(views(paragraphs@) =~= head + commits@.take(j as int + 1).map_values(
                |c: CommitMetadata| commit_block(c),
            ));
        }
        j = j + 1;
    }
    proof {
        assert(commits@.take(commits@.len() as int) =~= commits@);
    }
    join(&paragraphs, "\n\n")
}

/// The subtree a merge carries: the merged branch and the branches below it.
pub type MergeTreeNode = BranchTreeNode;

/// What merging a tracked branch into the branch it hangs on will do.
#[derive(Debug)]
pub struct MergePlan {
    pub trunk_branch: String,
    pub current_branch: String,
    pub source_branch_name: String,
    pub target_branch_name: String,
    pub source_node_id: u128,
    pub mode: MergeMode,
    pub messages: Vec<String>,
    pub tree: MergeTreeNode,
    pub restack_plan: Vec<RestackPreview>,
}

impl MergePlan {
    /// Whether the merge must first check out its target branch.
    pub fn requires_target_checkout(&self) -> (r: bool)
        ensures
            r == (self.current_branch@ != self.target_branch_name@),
    {
        !str_equal(self.current_branch.as_str(), self.target_branch_name.as_str())
    }
}

/// The checks of the merge command before the descendants are looked at: the branch merged,
/// its tracked node and the branch it is merged into.
pub open spec fn merge_target_spec(
    options: MergeOptions,
    nodes: Seq<BranchNode>,
    trunk: Seq<char>,
    facts: RepoFacts,
) -> Result<(Seq<char>, BranchNode, Seq<char>), PlanError> {
    let source = trim_spec(options.branch_name@);
    if source.len() == 0 {
        Err(blank_name_error("branch name"@))
    } else if !branch_exists_spec(facts, source) {
        Err(named_error(ErrorKind::NotFound, "branch "@, source, " does not exist"@))
    } else {
        match node_named(nodes, source) {
            None => Err(named_error(ErrorKind::NotFound, "branch "@, source, " is not tracked by dig"@)),
            Some(node) => match parent_name_spec(nodes, node.parent, trunk) {
                None => Err(named_error(ErrorKind::Other, "tracked parent for "@, source, " is missing from dig"@)),
                Some(target) => if !branch_exists_spec(facts, target) {
                    Err(named_error(ErrorKind::NotFound, "parent branch "@, target, " does not exist"@))
                } else {
                    Ok((source, node, target))
                },
            },
        }
    }
}

/// Whether `r` is what planning a merge gives: a failed check is its error, missing descendants
/// are named, a broken subtree is refused, and otherwise the children of the merged branch go
/// onto its target.
pub open spec fn merge_plan_matches(
    r: Result<MergePlan, DigError>,
    options: MergeOptions,
    current_branch: Seq<char>,
    nodes: Seq<BranchNode>,
    trunk: Seq<char>,
    facts: RepoFacts,
) -> bool {
    match merge_target_spec(options, nodes, trunk, facts) {
        Err(pe) => r matches Err(e) && (e.kind, e.message@) == pe,
        Ok((source, node, target)) => if descendant_missing(nodes, facts.heads@, node.id) {
            r matches Err(e) && refused_for_missing(e, nodes, facts.heads@, node.id, source)
        } else {
            match subtree_walk(nodes, node.id, Seq::<u128>::empty(), nodes.len()) {
                Err(SubtreeFailure::Cycle(id)) => r matches Err(e) && e.kind == ErrorKind::InvalidData && e.message@
                    == cycle_message(nodes, id),
                Err(SubtreeFailure::Missing) => r matches Err(e) && e.kind == ErrorKind::NotFound && e.message@
                    == branch_not_found_message(),
                Ok((t, _)) => match deleted_list(
                    nodes,
                    facts.heads@,
                    facts.merge_bases@,
                    children_spec(nodes, node.id),
                    0,
                    source,
                    (target, None),
                    node.parent,
                    None,
                ) {
                    Err(pe) => r matches Err(e) && (e.kind, e.message@) == pe,
                    Ok(actions) => r matches Ok(p) && {
                        &&& p.trunk_branch@ == trunk
                        &&& p.current_branch@ == current_branch
                        &&& p.source_branch_name@ == source
                        &&& p.target_branch_name@ == target
                        &&& p.source_node_id == node.id
                        &&& p.mode == options.mode
                        &&& views(p.messages@) == views(options.messages@)
                        &&& subtree_view(p.tree) == t
                        &&& previews_match(p.restack_plan@, actions)
                    },
                },
            }
        },
    }
}

/// Plans merging a tracked branch into the branch it hangs on, given the branch checked out,
/// the store and the local branches.
pub fn plan(
    options: &MergeOptions,
    current_branch: &str,
    state: &DigState,
    config: &DigConfig,
    facts: &RepoFacts,
) -> (r: Result<MergePlan, DigError>)
    ensures
        merge_plan_matches(r, *options, current_branch@, state.nodes@, config.trunk_branch@, *facts),
{
    let source = trim(options.branch_name.as_str());
    if source.as_str().unicode_len() == 0 {
        return Err(blank_name_failure("branch name"));
    }
    if !branch_exists(facts, source.as_str()) {
        return Err(named_failure(ErrorKind::NotFound, "branch ", source.as_str(), " does not exist"));
    }
    let node = match state.find_branch_by_name(source.as_str()) {
        Some(n) => n,
        None => {
            return Err(named_failure(ErrorKind::NotFound, "branch ", source.as_str(), " is not tracked by dig"));
        },
    };
    let graph = BranchGraph::new(state);
    let target = match graph.parent_branch_name(node, config.trunk_branch.as_str()) {
        Some(p) => p,
        None => {
            return Err(named_failure(ErrorKind::Other, "tracked parent for ", source.as_str(), " is missing from dig"));
        },
    };
    if !branch_exists(facts, target.as_str()) {
        return Err(named_failure(ErrorKind::NotFound, "parent branch ", target.as_str(), " does not exist"));
    }
    match require_local_descendants(state, node.id, source.as_str(), &facts.heads) {
        Ok(()) => {},
        Err(e) => {
            return Err(e);
        },
    }
    let tree = match graph.subtree(node.id) {
        Ok(t) => t,
        Err(e) => {
            return Err(e);
        },
    };
    let base = RestackBaseTarget::local(target.as_str());
    let actions = plan_after_deleted_branch(state, facts, node.id, source.as_str(), &base, &node.parent)?;
    let restack_plan = previews_for_actions(actions.as_slice());
    proof {
        assert forall|i: int| 0 <= i < actions@.len() implies #[trigger] action_views(actions@)[i] == actions@[i]@ by {}
    }
    let messages = copy_strings(&options.messages);
    Ok(
        MergePlan {
            trunk_branch: config.trunk_branch.clone(),
            current_branch: to_owned_string(current_branch),
            source_branch_name: source,
            target_branch_name: target,
            source_node_id: node.id,
            mode: options.mode,
            messages,
            tree,
            restack_plan,
        },
    )
}

/// A merge is only planned for a tracked branch whose branches below it all exist locally, into
/// the branch it hangs on.
pub proof fn lemma_merge_needs_local_descendants(
    r: Result<MergePlan, DigError>,
    options: MergeOptions,
    current_branch: Seq<char>,
    nodes: Seq<BranchNode>,
    trunk: Seq<char>,
    facts: RepoFacts,
)
    requires
        merge_plan_matches(r, options, current_branch, nodes, trunk, facts),
        r is Ok,
    ensures
        merge_target_spec(options, nodes, trunk, facts) matches Ok((source, node, target)) && !descendant_missing(
            nodes,
            facts.heads@,
            node.id,
        ) && r->Ok_0.source_node_id == node.id && parent_name_spec(nodes, node.parent, trunk) == Some(
            r->Ok_0.target_branch_name@,
        ),
{
}

} // verus!
