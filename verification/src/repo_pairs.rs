use vstd::prelude::*;

use crate::graph::{children_spec, BranchGraph};
use crate::model::{node_with_id, parent_name_spec, BranchNode, DigState, ParentRef};
use crate::restack::LocalBranchHead;
use crate::text::{chars_of, lines, lines_spec, string_from_range, to_owned_string, views};

verus! {

/// The position of the last space among the first `k` characters of `line`, if any.
pub open spec fn last_space_upto(line: Seq<char>, k: int) -> Option<int>
    decreases k,
{
    if k <= 0 || k > line.len() {
        None
    } else if line[k - 1] == ' ' {
        Some(k - 1)
    } else {
        last_space_upto(line, k - 1)
    }
}

/// A line of a ref listing read as a branch and its head: split at its last space.
pub open spec fn head_of_line(line: Seq<char>) -> Option<(Seq<char>, Seq<char>)> {
    match last_space_upto(line, line.len() as int) {
        Some(i) => Some((line.take(i), line.skip(i + 1))),
        None => None,
    }
}

/// The branches and heads of the first `k` lines; a line without a space names none.
pub open spec fn heads_upto(ls: Seq<Seq<char>>, k: int) -> Seq<(Seq<char>, Seq<char>)>
    decreases k,
{
    if k <= 0 || k > ls.len() {
        Seq::empty()
    } else {
        match head_of_line(ls[k - 1]) {
            Some(h) => heads_upto(ls, k - 1).push(h),
            None => heads_upto(ls, k - 1),
        }
    }
}

/// The branches and heads of a listing of `%(refname:short) %(objectname)` lines.
pub open spec fn listed_heads(listing: Seq<char>) -> Seq<(Seq<char>, Seq<char>)> {
    let ls = lines_spec(listing);
    heads_upto(ls, ls.len() as int)
}

/// The plain values of branch heads.
pub open spec fn head_views(hs: Seq<LocalBranchHead>) -> Seq<(Seq<char>, Seq<char>)> {
    hs.map_values(|h: LocalBranchHead| (h.branch_name@, h.head_oid@))
}

/// The plain values of pairs of refs.
pub open spec fn pair_views(ps: Seq<(String, String)>) -> Seq<(Seq<char>, Seq<char>)> {
    ps.map_values(|p: (String, String)| (p.0@, p.1@))
}

fn last_space(cs: &Vec<char>) -> (r: Option<usize>)
    ensures
        match r {
            Some(i) => i < cs@.len() && last_space_upto(cs@, cs@.len() as int) == Some(i as int),
            None => last_space_upto(cs@, cs@.len() as int) is None,
        },
{
    let mut k: usize = cs.len();
    while k > 0
        invariant
            k <= cs@.len(),
            last_space_upto(cs@, cs@.len() as int) == last_space_upto(cs@, k as int),
        decreases k,
    {
        if cs[k - 1] == ' ' {
            return Some(k - 1);
        }
        k = k - 1;
    }
    None
}

/// The local branches and their heads, read from a listing of
/// `%(refname:short) %(objectname)` lines; a line without a space is skipped.
pub fn parse_local_heads(listing: &str) -> (r: Vec<LocalBranchHead>)
    ensures
        head_views(r@) == listed_heads(listing@),
{
    let ls = lines(listing);
    let ghost lv = views(ls@);
    let mut r: Vec<LocalBranchHead> = Vec::new();
    let mut i: usize = 0;
    while i < ls.len()
        invariant
            i <= ls@.len(),
            lv == views(ls@),
            lv == lines_spec(listing@),
            head_views(r@) == heads_upto(lv, i as int),
        decreases ls.len() - i,
    {
        let cs = chars_of(ls[i].as_str());
        let len = cs.len();
        proof {
            assert(cs@ == lv[i as int]);
        }
        match last_space(&cs) {
            Some(at) => {
                let name = string_from_range(cs.as_slice(), 0, at);
                let oid = string_from_range(cs.as_slice(), at + 1, len);
                let ghost before = r@;
                r.push(LocalBranchHead { branch_name: name, head_oid: oid });
                proof {
                    assert(cs@.subrange(0, at as int) =~= cs@.take(at as int));
                    assert(cs@.subrange(at as int + 1, cs@.len() as int) =~= cs@.skip(at as int + 1));
                    assert(head_views(r@) =~= head_views(before).push((name@, oid@)));
                }
            },
            None => {},
        }
        i = i + 1;
    }
    r
}

/// The pairs of `onto` and each active child of the branch with id `id`, from `k` on.
pub open spec fn child_pairs_from(nodes: Seq<BranchNode>, kids: Seq<u128>, k: int, onto: Seq<char>) -> Seq<
    (Seq<char>, Seq<char>),
>
    decreases kids.len() - k,
{
    if k < 0 || k >= kids.len() {
        Seq::empty()
    } else {
        match node_with_id(nodes, kids[k]) {
            Some(n) => seq![(onto, n.branch_name@)] + child_pairs_from(nodes, kids, k + 1, onto),
            None => child_pairs_from(nodes, kids, k + 1, onto),
        }
    }
}

/// The pairs of refs whose merge bases the children of a removed branch are rebased from: the
/// branch they move onto, and each child in store order.
pub fn child_merge_base_pairs(state: &DigState, node_id: u128, onto: &str) -> (r: Vec<(String, String)>)
    ensures
        pair_views(r@) == child_pairs_from(state.nodes@, children_spec(state.nodes@, node_id), 0, onto@),
{
    let graph = BranchGraph::new(state);
    let kids = graph.active_children_ids(node_id);
    let ghost ks = kids@;
    let mut r: Vec<(String, String)> = Vec::new();
    let mut k: usize = kids.len();
    while k > 0
        invariant
            k <= kids@.len(),
            ks == kids@,
            ks == children_spec(state.nodes@, node_id),
            pair_views(r@) == child_pairs_from(state.nodes@, ks, k as int, onto@),
        decreases k,
    {
        k = k - 1;
        match state.find_branch_by_id(kids[k]) {
            Some(n) => {
                let ghost rest = r@;
                let mut front: Vec<(String, String)> = Vec::new();
                front.push((to_owned_string(onto), n.branch_name.clone()));
                front.append(&mut r);
                r = front;
                proof {
                    assert(pair_views(r@) =~= seq![(onto@, n.branch_name@)] + pair_views(rest)) by {
                        assert(r@.len() == rest.len() + 1);
                        assert forall|j: int| 0 <= j < r@.len() implies pair_views(r@)[j] == (seq![
                            (onto@, n.branch_name@),
                        ] + pair_views(rest))[j] by {
                            if j > 0 {
                                assert(r@[j] == rest[j - 1]);
                            }
                        }
                    }
                }
            },
            None => {},
        }
    }
    r
}

/// The pairs of each active branch among the first `k` and the branch it hangs on, where that
/// branch is known.
pub open spec fn parent_pairs_upto(nodes: Seq<BranchNode>, k: int, trunk: Seq<char>) -> Seq<(Seq<char>, Seq<char>)>
    decreases k,
{
    if k <= 0 || k > nodes.len() {
        Seq::empty()
    } else {
        let n = nodes[k - 1];
        let before = parent_pairs_upto(nodes, k - 1, trunk);
        if n.archived {
            before
        } else {
            match parent_name_spec(nodes, n.parent, trunk) {
                Some(p) => before.push((p, n.branch_name@)),
                None => before,
            }
        }
    }
}

/// The pairs of each active tracked branch and the branch it hangs on, in store order, whose
/// merge bases a move of a branch is rebased from.
pub fn tracked_parent_pairs(state: &DigState, trunk: &str) -> (r: Vec<(String, String)>)
    ensures
        pair_views(r@) == parent_pairs_upto(state.nodes@, state.nodes@.len() as int, trunk@),
{
    let graph = BranchGraph::new(state);
    let mut r: Vec<(String, String)> = Vec::new();
    let mut i: usize = 0;
    while i < state.nodes.len()
        invariant
            i <= state.nodes@.len(),
            graph.state == state,
            pair_views(r@) == parent_pairs_upto(state.nodes@, i as int, trunk@),
        decreases state.nodes@.len() - i,
    {
        let n = &state.nodes[i];
        if !n.archived {
            match graph.parent_branch_name(n, trunk) {
                Some(p) => {
                    let ghost before = r@;
                    r.push((p, n.branch_name.clone()));
                    proof {
                        assert(pair_views(r@) =~= pair_views(before).push((p@, n.branch_name@)));
                    }
                },
                None => {},
            }
        }
        i = i + 1;
    }
    r
}

/// The pairs of `name` and each branch above it, walking up from `parent` for at most `fuel`
/// steps: trunk ends the walk with a pair of its own, an unknown parent ends it without one.
pub open spec fn ancestor_walk(nodes: Seq<BranchNode>, parent: ParentRef, name: Seq<char>, trunk: Seq<char>, fuel: nat) -> Seq<
    (Seq<char>, Seq<char>),
>
    decreases fuel,
{
    if fuel == 0 {
        Seq::empty()
    } else {
        match parent {
            ParentRef::Trunk => seq![(trunk, name)],
            ParentRef::Branch { node_id } => match node_with_id(nodes, node_id) {
                Some(p) => seq![(p.branch_name@, name)] + ancestor_walk(nodes, p.parent, name, trunk, (fuel - 1) as nat),
                None => Seq::empty(),
            },
        }
    }
}

/// The ancestor pairs of the active branches among the first `k`.
pub open spec fn ancestor_pairs_upto(nodes: Seq<BranchNode>, k: int, trunk: Seq<char>) -> Seq<(Seq<char>, Seq<char>)>
    decreases k,
{
    if k <= 0 || k > nodes.len() {
        Seq::empty()
    } else {
        let n = nodes[k - 1];
        let before = ancestor_pairs_upto(nodes, k - 1, trunk);
        if n.archived {
            before
        } else {
            before + ancestor_walk(nodes, n.parent, n.branch_name@, trunk, (nodes.len() + 1) as nat)
        }
    }
}

/// The pairs of each active tracked branch and each branch above it up to trunk, in store
/// order, whose merge bases rebases that skip removed branches start from; each walk takes at
/// most one step more than there are branches, so a cycle ends it.
pub fn ancestor_pairs(state: &DigState, trunk: &str) -> (r: Vec<(String, String)>)
    requires
        state.nodes@.len() < usize::MAX,
    ensures
        pair_views(r@) == ancestor_pairs_upto(state.nodes@, state.nodes@.len() as int, trunk@),
{
    let mut r: Vec<(String, String)> = Vec::new();
    let mut i: usize = 0;
    let fuel_total: usize = state.nodes.len() + 1;
    while i < state.nodes.len()
        invariant
            i <= state.nodes@.len(),
            fuel_total == state.nodes@.len() + 1,
            pair_views(r@) == ancestor_pairs_upto(state.nodes@, i as int, trunk@),
        decreases state.nodes@.len() - i,
    {
        let node = &state.nodes[i];
        if !node.archived {
            let ghost start = pair_views(r@);
            let ghost total = ancestor_walk(state.nodes@, node.parent, node.branch_name@, trunk@, fuel_total as nat);
            let mut parent = node.parent;
            let mut fuel: usize = fuel_total;
            loop
                invariant_except_break
                    fuel <= fuel_total,
                    pair_views(r@) + ancestor_walk(state.nodes@, parent, node.branch_name@, trunk@, fuel as nat)
                        == start + total,
                ensures
                    pair_views(r@) == start + total,
                decreases fuel,
            {
                let ghost before = r@;
                let ghost walk = ancestor_walk(state.nodes@, parent, node.branch_name@, trunk@, fuel as nat);
                if fuel == 0 {
                    proof {
                        assert(pair_views(r@) + walk =~= pair_views(r@));
                    }
                    break;
                }
                match parent {
                    ParentRef::Trunk => {
                        r.push((to_owned_string(trunk), node.branch_name.clone()));
                        proof {
                            assert(walk == seq![(trunk@, node.branch_name@)]);
                            assert(pair_views(r@) =~= pair_views(before) + walk);
                        }
                        break;
                    },
                    ParentRef::Branch { node_id } => match state.find_branch_by_id(node_id) {
                        Some(p) => {
                            r.push((p.branch_name.clone(), node.branch_name.clone()));
                            parent = p.parent;
                            fuel = fuel - 1;
                            proof {
                                let rest = ancestor_walk(state.nodes@, parent, node.branch_name@, trunk@, fuel as nat);
                                assert(walk == seq![(p.branch_name@, node.branch_name@)] + rest);
                                assert(pair_views(r@) =~= pair_views(before).push((p.branch_name@, node.branch_name@)));
                                assert(pair_views(r@) + rest =~= pair_views(before) + walk);
                            }
                        },
                        None => {
                            proof {
                                assert(walk =~= Seq::empty());
                                assert(pair_views(r@) + walk =~= pair_views(r@));
                            }
                            break;
                        },
                    },
                }
            }
        }
        i = i + 1;
    }
    r
}

/// Whether some head belongs to the branch `name`.
pub open spec fn has_head(heads: Seq<LocalBranchHead>, name: Seq<char>) -> bool {
    exists|i: int| 0 <= i < heads.len() && (#[trigger] heads[i]).branch_name@ == name
}

/// The first `k` pairs whose two branches both exist locally.
pub open spec fn local_pairs_upto(
    pairs: Seq<(Seq<char>, Seq<char>)>,
    heads: Seq<LocalBranchHead>,
    k: int,
) -> Seq<(Seq<char>, Seq<char>)>
    decreases k,
{
    if k <= 0 || k > pairs.len() {
        Seq::empty()
    } else {
        let before = local_pairs_upto(pairs, heads, k - 1);
        let p = pairs[k - 1];
        if has_head(heads, p.0) && has_head(heads, p.1) {
            before.push(p)
        } else {
            before
        }
    }
}

fn head_exists(heads: &Vec<LocalBranchHead>, name: &str) -> (r: bool)
    ensures
        r == has_head(heads@, name@),
{
    let mut i: usize = 0;
    while i < heads.len()
        invariant
            i <= heads@.len(),
            forall|j: int| 0 <= j < i ==> (#[trigger] heads@[j]).branch_name@ != name@,
        decreases heads.len() - i,
    {
        if crate::text::str_equal(heads[i].branch_name.as_str(), name) {
            return true;
        }
        i = i + 1;
    }
    false
}

/// The pairs whose two branches both exist locally, in order: the pairs whose integration
/// cleanup planning asks git about.
pub fn pairs_with_local_heads(pairs: &Vec<(String, String)>, heads: &Vec<LocalBranchHead>) -> (r: Vec<(String, String)>)
    ensures
        pair_views(r@) == local_pairs_upto(pair_views(pairs@), heads@, pairs@.len() as int),
{
    let mut r: Vec<(String, String)> = Vec::new();
    let mut i: usize = 0;
    while i < pairs.len()
        invariant
            i <= pairs@.len(),
            pair_views(r@) == local_pairs_upto(pair_views(pairs@), heads@, i as int),
        decreases pairs.len() - i,
    {
        let p = &pairs[i];
        if head_exists(heads, p.0.as_str()) && head_exists(heads, p.1.as_str()) {
            let ghost before = r@;
            r.push((p.0.clone(), p.1.clone()));
            proof {
                assert(pair_views(r@) =~= pair_views(before).push(pair_views(pairs@)[i as int]));
            }
        }
        i = i + 1;
    }
    r
}

} // verus!
