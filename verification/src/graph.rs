use vstd::prelude::*;

use crate::bounds::{lemma_distinct_indices_bounded, lemma_no_dup_subset_len};
use crate::model::{
    first_with_id, has_active_id, id_position, lemma_id_position_is_first, name_position,
    parent_name_spec, BranchNode, DigState, ParentRef,
};
use crate::error::{DigError, ErrorKind};
use crate::text::{push_str, str_equal, to_owned_string};

verus! {

/// One entry of a lineage: a branch and the pull request it is tracked with.
#[derive(Debug)]
pub struct BranchLineageNode {
    pub branch_name: String,
    pub pull_request_number: Option<u64>,
}

/// A read-only view of the tracked branches as a graph.
pub struct BranchGraph<'a> {
    pub state: &'a DigState,
}

/// The ids of the active branches whose parent is `p`, in store order.
pub open spec fn children_spec(nodes: Seq<BranchNode>, p: u128) -> Seq<u128>
    decreases nodes.len(),
{
    if nodes.len() == 0 {
        Seq::<u128>::empty()
    } else {
        let rest = children_spec(nodes.drop_last(), p);
        let n = nodes.last();
        if !n.archived && n.parent == (ParentRef::Branch { node_id: p }) {
            rest.push(n.id)
        } else {
            rest
        }
    }
}

/// The ids of the active branches whose parent is trunk, in store order.
pub open spec fn trunk_children_spec(nodes: Seq<BranchNode>) -> Seq<u128>
    decreases nodes.len(),
{
    if nodes.len() == 0 {
        Seq::<u128>::empty()
    } else {
        let rest = trunk_children_spec(nodes.drop_last());
        let n = nodes.last();
        if !n.archived && n.parent == ParentRef::Trunk {
            rest.push(n.id)
        } else {
            rest
        }
    }
}

/// Whether `c` is the id of an active branch whose parent is `p`.
pub open spec fn child_edge(nodes: Seq<BranchNode>, p: u128, c: u128) -> bool {
    children_spec(nodes, p).contains(c)
}

/// Whether `path` walks from parent to child at every step.
pub open spec fn is_child_path(nodes: Seq<BranchNode>, path: Seq<u128>) -> bool {
    &&& path.len() >= 1
    &&& forall|k: int| 0 <= k < path.len() - 1 ==> child_edge(nodes, #[trigger] path[k], path[k + 1])
}

/// Whether `b` can be reached from `a` by walking from parents to children.
pub open spec fn reachable(nodes: Seq<BranchNode>, a: u128, b: u128) -> bool {
    exists|path: Seq<u128>| is_child_path(nodes, path) && path[0] == a && path.last() == b
}

/// The id of every tracked branch, and `root`.
pub open spec fn id_universe(nodes: Seq<BranchNode>, root: u128) -> Seq<u128> {
    seq![root] + nodes.map_values(|n: BranchNode| n.id)
}

proof fn lemma_children_are_ids(nodes: Seq<BranchNode>, p: u128, c: u128)
    requires
        children_spec(nodes, p).contains(c),
    ensures
        exists|i: int| 0 <= i < nodes.len() && nodes[i].id == c,
    decreases nodes.len(),
{
    let rest = children_spec(nodes.drop_last(), p);
    let n = nodes.last();
    if !n.archived && n.parent == (ParentRef::Branch { node_id: p }) && c == n.id {
        assert(nodes[nodes.len() - 1].id == c);
    } else {
        assert(rest.contains(c));
        lemma_children_are_ids(nodes.drop_last(), p, c);
        let i = choose|i: int| 0 <= i < nodes.drop_last().len() && nodes.drop_last()[i].id == c;
        assert(nodes[i].id == c);
    }
}

proof fn lemma_child_in_universe(nodes: Seq<BranchNode>, root: u128, p: u128, c: u128)
    requires
        child_edge(nodes, p, c),
    ensures
        id_universe(nodes, root).contains(c),
{
    lemma_children_are_ids(nodes, p, c);
    let i = choose|i: int| 0 <= i < nodes.len() && nodes[i].id == c;
    assert(id_universe(nodes, root)[i + 1] == c);
}

proof fn lemma_reach_step(nodes: Seq<BranchNode>, a: u128, b: u128, c: u128)
    requires
        reachable(nodes, a, b),
        child_edge(nodes, b, c),
    ensures
        reachable(nodes, a, c),
{
    let path = choose|path: Seq<u128>| is_child_path(nodes, path) && path[0] == a && path.last() == b;
    let p2 = path.push(c);
    assert forall|k: int| 0 <= k < p2.len() - 1 implies child_edge(nodes, #[trigger] p2[k], p2[k + 1]) by {
        if k < path.len() - 1 {
            assert(p2[k] == path[k] && p2[k + 1] == path[k + 1]);
        }
    }
    assert(is_child_path(nodes, p2));
    assert(p2[0] == a && p2.last() == c);
}

proof fn lemma_reach_self(nodes: Seq<BranchNode>, a: u128)
    ensures
        reachable(nodes, a, a),
{
    let path = seq![a];
    assert(is_child_path(nodes, path));
    assert(path[0] == a && path.last() == a);
}

proof fn lemma_path_in_closed(nodes: Seq<BranchNode>, set: Seq<u128>, path: Seq<u128>, k: int)
    requires
        is_child_path(nodes, path),
        0 <= k < path.len(),
        set.contains(path[0]),
        forall|x: u128, c: u128| set.contains(x) && child_edge(nodes, x, c) ==> set.contains(c),
    ensures
        set.contains(path[k]),
    decreases k,
{
    if k > 0 {
        lemma_path_in_closed(nodes, set, path, k - 1);
        assert(child_edge(nodes, path[k - 1], path[k]));
    }
}

proof fn lemma_closed_contains_reachable(nodes: Seq<BranchNode>, set: Seq<u128>, a: u128, b: u128)
    requires
        set.contains(a),
        forall|x: u128, c: u128| set.contains(x) && child_edge(nodes, x, c) ==> set.contains(c),
        reachable(nodes, a, b),
    ensures
        set.contains(b),
{
    let path = choose|path: Seq<u128>| is_child_path(nodes, path) && path[0] == a && path.last() == b;
    lemma_path_in_closed(nodes, set, path, path.len() - 1);
}

/// Whether a sequence of ids holds the given id.
pub fn ids_contain(ids: &Vec<u128>, id: u128) -> (r: bool)
    ensures
        r == ids@.contains(id),
{
    let mut i: usize = 0;
    while i < ids.len()
        invariant
            i <= ids.len(),
            forall|j: int| 0 <= j < i ==> ids@[j] != id,
        decreases ids.len() - i,
    {
        if ids[i] == id {
            return true;
        }
        i = i + 1;
    }
    false
}

/// The node indices of `path`, read as ids.
pub open spec fn chain_ids(nodes: Seq<BranchNode>, path: Seq<usize>) -> Seq<u128> {
    path.map_values(|i: usize| nodes[i as int].id)
}

/// Whether `path` walks from a branch to its parent at every step, each parent being the
/// first active branch with the parent id and not yet on the path.
pub open spec fn is_parent_chain(nodes: Seq<BranchNode>, path: Seq<usize>) -> bool {
    &&& path.len() >= 1
    &&& forall|k: int| 0 <= k < path.len() ==> #[trigger] path[k] < nodes.len() && !nodes[path[k] as int].archived
    &&& forall|k: int|
        0 <= k < path.len() - 1 ==> match #[trigger] nodes[path[k] as int].parent {
            ParentRef::Trunk => false,
            ParentRef::Branch { node_id } => !chain_ids(nodes, path.take(k + 1)).contains(node_id)
                && id_position(nodes, node_id) == Some(path[k + 1] as int),
        }
}

/// Whether a parent chain cannot be extended: the last branch hangs on trunk, or its parent
/// is already on the path, or is not tracked.
pub open spec fn chain_complete(nodes: Seq<BranchNode>, path: Seq<usize>) -> bool {
    match nodes[path.last() as int].parent {
        ParentRef::Trunk => true,
        ParentRef::Branch { node_id } => chain_ids(nodes, path).contains(node_id) || id_position(
            nodes,
            node_id,
        ) is None,
    }
}

/// Whether `path` is the full parent chain that starts at entry `start`.
pub open spec fn is_full_chain(nodes: Seq<BranchNode>, start: int, path: Seq<usize>) -> bool {
    is_parent_chain(nodes, path) && path[0] == start && chain_complete(nodes, path)
}

/// The full parent chain that starts at entry `start`.
pub open spec fn full_chain(nodes: Seq<BranchNode>, start: int) -> Seq<usize> {
    choose|path: Seq<usize>| is_full_chain(nodes, start, path)
}

proof fn lemma_chain_ids_distinct(nodes: Seq<BranchNode>, path: Seq<usize>)
    requires
        is_parent_chain(nodes, path),
    ensures
        chain_ids(nodes, path).no_duplicates(),
        path.no_duplicates(),
{
    assert forall|a: int, b: int| 0 <= a < b < path.len() implies chain_ids(nodes, path)[a]
        != chain_ids(nodes, path)[b] by {
        let k = b - 1;
        assert(0 <= k < path.len() - 1);
        let par = nodes[path[k] as int].parent;
        match par {
            ParentRef::Trunk => {},
            ParentRef::Branch { node_id } => {
                lemma_id_position_is_first(nodes, node_id);
                assert(nodes[path[b] as int].id == node_id);
                assert(chain_ids(nodes, path.take(k + 1))[a] == chain_ids(nodes, path)[a]);
            },
        }
    }
    assert forall|a: int, b: int| 0 <= a < b < path.len() implies path[a] != path[b] by {
        assert(chain_ids(nodes, path)[a] != chain_ids(nodes, path)[b]);
    }
}

proof fn lemma_chains_agree(nodes: Seq<BranchNode>, p1: Seq<usize>, p2: Seq<usize>, k: int)
    requires
        is_parent_chain(nodes, p1),
        is_parent_chain(nodes, p2),
        p1[0] == p2[0],
        0 <= k < p1.len(),
        k < p2.len(),
    ensures
        p1.take(k + 1) == p2.take(k + 1),
    decreases k,
{
    if k == 0 {
        assert(p1.take(1) =~= p2.take(1));
    } else {
        lemma_chains_agree(nodes, p1, p2, k - 1);
        assert(p1[k - 1] == p1.take(k)[k - 1]);
        assert(p2[k - 1] == p2.take(k)[k - 1]);
        assert(p1[k - 1] == p2[k - 1]);
        let par = nodes[p1[k - 1] as int].parent;
        match par {
            ParentRef::Trunk => {},
            ParentRef::Branch { node_id } => {},
        }
        assert(p1[k] == p2[k]);
        assert(p1.take(k + 1) =~= p1.take(k).push(p1[k]));
        assert(p2.take(k + 1) =~= p2.take(k).push(p2[k]));
    }
}

/// Two full parent chains from the same entry are the same chain.
pub proof fn lemma_full_chain_unique(nodes: Seq<BranchNode>, start: int, p1: Seq<usize>, p2: Seq<usize>)
    requires
        is_full_chain(nodes, start, p1),
        is_full_chain(nodes, start, p2),
    ensures
        p1 == p2,
{
    if p1.len() != p2.len() {
        let (short, long) = if p1.len() < p2.len() {
            (p1, p2)
        } else {
            (p2, p1)
        };
        let last = short.len() - 1;
        lemma_chains_agree(nodes, short, long, last);
        assert(short =~= short.take(last + 1));
        assert(short[last] == long.take(last + 1)[last]);
        assert(chain_ids(nodes, short) =~= chain_ids(nodes, long.take(last + 1)));
        assert(0 <= last < long.len() - 1);
        match nodes[short[last] as int].parent {
            ParentRef::Trunk => {},
            ParentRef::Branch { node_id } => {
                lemma_id_position_is_first(nodes, node_id);
            },
        }
    } else {
        lemma_chains_agree(nodes, p1, p2, p1.len() - 1);
        assert(p1 =~= p1.take(p1.len() as int));
        assert(p2 =~= p2.take(p2.len() as int));
    }
}

/// The number of parent steps above the branch with the given id; zero when not tracked.
pub open spec fn depth_of(nodes: Seq<BranchNode>, id: u128) -> int {
    match id_position(nodes, id) {
        None => 0,
        Some(s) => full_chain(nodes, s).len() - 1,
    }
}

/// A bound on the length of a path of distinct entries.
pub open spec fn chain_room(nodes: Seq<BranchNode>) -> int {
    if nodes.len() <= usize::MAX + 1 {
        nodes.len() as int
    } else {
        usize::MAX + 1
    }
}

proof fn lemma_chain_room(nodes: Seq<BranchNode>, path: Seq<usize>)
    requires
        is_parent_chain(nodes, path),
    ensures
        path.len() <= chain_room(nodes),
        chain_ids(nodes, path).no_duplicates(),
{
    lemma_chain_ids_distinct(nodes, path);
    lemma_distinct_indices_bounded(path, chain_room(nodes) as nat);
}

/// Every parent chain extends to a full one from the same entry.
proof fn lemma_chain_extends(nodes: Seq<BranchNode>, path: Seq<usize>)
    requires
        nodes.len() <= usize::MAX,
        is_parent_chain(nodes, path),
    ensures
        is_full_chain(nodes, path[0] as int, full_chain(nodes, path[0] as int)),
    decreases chain_room(nodes) - path.len(),
{
    lemma_chain_room(nodes, path);
    if chain_complete(nodes, path) {
        assert(is_full_chain(nodes, path[0] as int, path));
    } else {
        match nodes[path.last() as int].parent {
            ParentRef::Trunk => {},
            ParentRef::Branch { node_id } => {
                lemma_id_position_is_first(nodes, node_id);
                let j = id_position(nodes, node_id)->Some_0;
                let next = path.push(j as usize);
                assert(next.take(path.len() as int) =~= path);
                assert(chain_ids(nodes, path) =~= chain_ids(nodes, next.take(path.len() as int)));
                assert forall|k: int| 0 <= k < next.len() - 1 implies match #[trigger] nodes[next[k] as int].parent {
                    ParentRef::Trunk => false,
                    ParentRef::Branch { node_id } => !chain_ids(nodes, next.take(k + 1)).contains(node_id)
                        && id_position(nodes, node_id) == Some(next[k + 1] as int),
                } by {
                    assert(next[k] == path[k]);
                    if k < path.len() - 1 {
                        assert(next.take(k + 1) =~= path.take(k + 1));
                        assert(next[k + 1] == path[k + 1]);
                    }
                }
                assert forall|k: int| 0 <= k < next.len() implies #[trigger] next[k] < nodes.len()
                    && !nodes[next[k] as int].archived by {
                    if k < path.len() {
                        assert(next[k] == path[k]);
                    }
                }
                assert(is_parent_chain(nodes, next));
                lemma_chain_room(nodes, next);
                lemma_chain_extends(nodes, next);
            },
        }
    }
}

/// Every tracked branch has a full parent chain.
pub proof fn lemma_full_chain_exists(nodes: Seq<BranchNode>, start: int)
    requires
        nodes.len() <= usize::MAX,
        0 <= start < nodes.len(),
        !nodes[start].archived,
    ensures
        is_full_chain(nodes, start, full_chain(nodes, start)),
{
    let path = seq![start as usize];
    assert(is_parent_chain(nodes, path));
    lemma_chain_extends(nodes, path);
}

/// A child sits one level below its parent: where the parent's chain does not pass through the
/// child, the child's depth is the parent's depth plus one.
pub proof fn lemma_child_depth(nodes: Seq<BranchNode>, parent_id: u128, child_id: u128)
    requires
        nodes.len() <= usize::MAX,
        id_position(nodes, child_id) is Some,
        nodes[id_position(nodes, child_id)->Some_0].parent == (ParentRef::Branch { node_id: parent_id }),
        id_position(nodes, parent_id) is Some,
        !chain_ids(nodes, full_chain(nodes, id_position(nodes, parent_id)->Some_0)).contains(child_id),
    ensures
        depth_of(nodes, child_id) == depth_of(nodes, parent_id) + 1,
{
    lemma_id_position_is_first(nodes, child_id);
    lemma_id_position_is_first(nodes, parent_id);
    let sc = id_position(nodes, child_id)->Some_0;
    let sp = id_position(nodes, parent_id)->Some_0;
    lemma_full_chain_exists(nodes, sp);
    lemma_full_chain_exists(nodes, sc);
    let up = full_chain(nodes, sp);
    let path = seq![sc as usize] + up;
    assert(chain_ids(nodes, path) =~= seq![child_id] + chain_ids(nodes, up));
    assert(chain_ids(nodes, up)[0] == parent_id);
    assert forall|k: int| 0 <= k < path.len() implies #[trigger] path[k] < nodes.len()
        && !nodes[path[k] as int].archived by {
        if k > 0 {
            assert(path[k] == up[k - 1]);
        }
    }
    assert forall|k: int| 0 <= k < path.len() - 1 implies match #[trigger] nodes[path[k] as int].parent {
        ParentRef::Trunk => false,
        ParentRef::Branch { node_id } => !chain_ids(nodes, path.take(k + 1)).contains(node_id)
            && id_position(nodes, node_id) == Some(path[k + 1] as int),
    } by {
        assert(chain_ids(nodes, path.take(k + 1)) =~= seq![child_id] + chain_ids(nodes, up.take(k)));
        if k > 0 {
            let q = k - 1;
            assert(path[k] == up[q]);
            assert(path[k + 1] == up[q + 1]);
            match nodes[up[q] as int].parent {
                ParentRef::Trunk => {},
                ParentRef::Branch { node_id } => {
                    assert(up.take(k) == up.take(q + 1));
                    if node_id == child_id {
                        assert(nodes[up[q + 1] as int].id == node_id);
                        assert(chain_ids(nodes, up)[q + 1] == child_id);
                    }
                    let ids = chain_ids(nodes, path.take(k + 1));
                    if ids.contains(node_id) {
                        let w = choose|w: int| 0 <= w < ids.len() && ids[w] == node_id;
                        if w > 0 {
                            assert(chain_ids(nodes, up.take(k))[w - 1] == node_id);
                        }
                    }
                },
            }
        } else {
            assert(up.take(0) =~= Seq::<usize>::empty());
            assert(chain_ids(nodes, path.take(1)) =~= seq![child_id]);
            assert(path[1] == up[0]);
            assert(child_id != parent_id) by {
                assert(chain_ids(nodes, up)[0] == parent_id);
            }
        }
    }
    assert(is_parent_chain(nodes, path));
    assert(path.last() == up.last());
    match nodes[up.last() as int].parent {
        ParentRef::Trunk => {},
        ParentRef::Branch { node_id } => {
            let ids = chain_ids(nodes, up);
            if ids.contains(node_id) {
                let w = choose|w: int| 0 <= w < ids.len() && ids[w] == node_id;
                assert(chain_ids(nodes, path)[w + 1] == node_id);
            }
        },
    }
    assert(chain_complete(nodes, path));
    lemma_full_chain_unique(nodes, sc, path, full_chain(nodes, sc));
}


/// The lineage entry of tracked branch `n`.
pub open spec fn lineage_entry_of(n: BranchNode) -> (Seq<char>, Option<u64>) {
    (
        n.branch_name@,
        match n.pull_request {
            Some(pr) => Some(pr.number),
            None => None,
        },
    )
}

/// The lineage entries of the branches on a path.
pub open spec fn lineage_entries(nodes: Seq<BranchNode>, path: Seq<usize>) -> Seq<(Seq<char>, Option<u64>)> {
    path.map_values(|i: usize| lineage_entry_of(nodes[i as int]))
}

/// The lineage of the branch named `name`: the branch itself and its parents, and the trunk at
/// the end when the chain ends on trunk at a branch other than the trunk.
pub open spec fn lineage_of_chain(nodes: Seq<BranchNode>, path: Seq<usize>, trunk: Seq<char>) -> Seq<
    (Seq<char>, Option<u64>),
> {
    let entries = lineage_entries(nodes, path);
    let last = nodes[path.last() as int];
    if last.parent == ParentRef::Trunk && last.branch_name@ != trunk {
        entries.push((trunk, None))
    } else {
        entries
    }
}

/// The views of a lineage.
pub open spec fn lineage_view(v: Seq<BranchLineageNode>) -> Seq<(Seq<char>, Option<u64>)> {
    v.map_values(|n: BranchLineageNode| (n.branch_name@, n.pull_request_number))
}

/// The shape of a branch subtree: a branch name and the subtrees of its children.
#[derive(Debug)]
pub struct BranchTreeNode {
    pub branch_name: String,
    pub children: Vec<BranchTreeNode>,
}

impl<'a> BranchGraph<'a> {
    /// A graph over the given state.
    pub fn new(state: &'a DigState) -> (g: BranchGraph<'a>)
        ensures
            g.state == state,
    {
        BranchGraph { state }
    }

    /// The ids of the active branches whose parent is `node_id`, in store order.
    pub fn active_children_ids(&self, node_id: u128) -> (r: Vec<u128>)
        ensures
            r@ == children_spec(self.state.nodes@, node_id),
    {
        let nodes = &self.state.nodes;
        let mut r: Vec<u128> = Vec::new();
        let mut i: usize = 0;
        while i < nodes.len()
            invariant
                i <= nodes.len(),
                r@ == children_spec(nodes@.take(i as int), node_id),
            decreases nodes.len() - i,
        {
            proof {
                assert(nodes@.take(i as int + 1).drop_last() =~= nodes@.take(i as int));
            }
            let n = &nodes[i];
            if !n.archived && n.parent == (ParentRef::Branch { node_id }) {
                r.push(n.id);
            }
            i = i + 1;
        }
        proof {
            assert(nodes@.take(nodes.len() as int) =~= nodes@);
        }
        r
    }

    /// The ids of the active branches that sit directly on trunk, in store order.
    pub fn trunk_children_ids(&self) -> (r: Vec<u128>)
        ensures
            r@ == trunk_children_spec(self.state.nodes@),
    {
        let nodes = &self.state.nodes;
        let mut r: Vec<u128> = Vec::new();
        let mut i: usize = 0;
        while i < nodes.len()
            invariant
                i <= nodes.len(),
                r@ == trunk_children_spec(nodes@.take(i as int)),
            decreases nodes.len() - i,
        {
            proof {
                assert(nodes@.take(i as int + 1).drop_last() =~= nodes@.take(i as int));
            }
            let n = &nodes[i];
            if !n.archived && n.parent == ParentRef::Trunk {
                r.push(n.id);
            }
            i = i + 1;
        }
        proof {
            assert(nodes@.take(nodes.len() as int) =~= nodes@);
        }
        r
    }

    /// Every active branch below `node_id`, each once, `node_id` itself excluded; a cycle
    /// does not make the walk loop.
    pub fn active_descendant_ids(&self, node_id: u128) -> (r: Vec<u128>)
        ensures
            r@.no_duplicates(),
            !r@.contains(node_id),
            forall|x: u128|
                r@.contains(x) <==> (x != node_id && reachable(self.state.nodes@, node_id, x)),
    {
        let ghost nodes = self.state.nodes@;
        let ghost universe = id_universe(nodes, node_id);
        let mut descendants: Vec<u128> = Vec::new();
        let mut visited: Vec<u128> = Vec::new();
        visited.push(node_id);
        let mut frontier = self.active_children_ids(node_id);
        proof {
            lemma_reach_self(nodes, node_id);
            assert(visited@ =~= seq![node_id] + descendants@);
            assert forall|x: u128| frontier@.contains(x) implies reachable(nodes, node_id, x) by {
                lemma_reach_step(nodes, node_id, node_id, x);
            }
            assert forall|x: u128| frontier@.contains(x) implies universe.contains(x) by {
                lemma_child_in_universe(nodes, node_id, node_id, x);
            }
            assert(universe[0] == node_id);
        }
        while frontier.len() > 0
            invariant
                nodes == self.state.nodes@,
                universe == id_universe(nodes, node_id),
                visited@ == seq![node_id] + descendants@,
                visited@.no_duplicates(),
                forall|x: u128| visited@.contains(x) ==> reachable(nodes, node_id, x),
                forall|x: u128| visited@.contains(x) ==> universe.contains(x),
                forall|x: u128| frontier@.contains(x) ==> reachable(nodes, node_id, x),
                forall|x: u128| frontier@.contains(x) ==> universe.contains(x),
                forall|x: u128, c: u128|
                    visited@.contains(x) && child_edge(nodes, x, c) ==> visited@.contains(c)
                        || frontier@.contains(c),
            decreases universe.len() - visited@.len(), frontier@.len(),
        {
            proof {
                assert forall|i: int| 0 <= i < visited@.len() implies universe.contains(
                    #[trigger] visited@[i],
                ) by {
                    assert(visited@.contains(visited@[i]));
                }
                lemma_no_dup_subset_len(visited@, universe);
            }
            let ghost old_frontier = frontier@;
            let child = frontier.pop().unwrap();
            proof {
                assert(old_frontier == frontier@.push(child));
                assert(old_frontier.contains(child)) by {
                    assert(old_frontier[old_frontier.len() - 1] == child);
                }
                assert forall|x: u128| frontier@.contains(x) implies old_frontier.contains(x) by {
                    let i = choose|i: int| 0 <= i < frontier@.len() && frontier@[i] == x;
                    assert(old_frontier[i] == x);
                }
                assert forall|x: u128| old_frontier.contains(x) && x != child implies frontier@.contains(
                    x,
                ) by {
                    let i = choose|i: int| 0 <= i < old_frontier.len() && old_frontier[i] == x;
                    assert(i < frontier@.len());
                    assert(frontier@[i] == x);
                }
            }
            if !ids_contain(&visited, child) {
                let ghost old_visited = visited@;
                visited.push(child);
                descendants.push(child);
                let mut kids = self.active_children_ids(child);
                let ghost kid_ids = kids@;
                frontier.append(&mut kids);
                proof {
                    assert(visited@ =~= seq![node_id] + descendants@);
                    assert(visited@ == old_visited.push(child));
                    assert forall|x: u128| visited@.contains(x) implies old_visited.contains(x) || x
                        == child by {
                        let i = choose|i: int| 0 <= i < visited@.len() && visited@[i] == x;
                        if i < old_visited.len() {
                            assert(old_visited[i] == x);
                        }
                    }
                    assert forall|x: u128| old_visited.contains(x) implies visited@.contains(x) by {
                        let i = choose|i: int| 0 <= i < old_visited.len() && old_visited[i] == x;
                        assert(visited@[i] == x);
                    }
                    assert(visited@.contains(child)) by {
                        assert(visited@[visited@.len() - 1] == child);
                    }
                    assert(visited@.no_duplicates());
                    assert forall|x: u128| frontier@.contains(x) implies reachable(nodes, node_id, x) by {
                        let i = choose|i: int| 0 <= i < frontier@.len() && frontier@[i] == x;
                        let before = old_frontier.drop_last();
                        if i < before.len() {
                            assert(before[i] == x);
                            assert(old_frontier[i] == x);
                        } else {
                            assert(kid_ids[i - before.len()] == x);
                            assert(kid_ids.contains(x));
                            lemma_reach_step(nodes, node_id, child, x);
                        }
                    }
                    assert forall|x: u128| frontier@.contains(x) implies universe.contains(x) by {
                        let i = choose|i: int| 0 <= i < frontier@.len() && frontier@[i] == x;
                        let before = old_frontier.drop_last();
                        if i < before.len() {
                            assert(before[i] == x);
                            assert(old_frontier[i] == x);
                            assert(old_frontier.contains(x));
                        } else {
                            assert(kid_ids[i - before.len()] == x);
                            assert(kid_ids.contains(x));
                            lemma_child_in_universe(nodes, node_id, child, x);
                        }
                    }
                    assert forall|x: u128, c: u128|
                        visited@.contains(x) && child_edge(nodes, x, c) implies visited@.contains(c)
                            || frontier@.contains(c) by {
                        let before = old_frontier.drop_last();
                        if x == child {
                            let j = choose|j: int| 0 <= j < kid_ids.len() && kid_ids[j] == c;
                            assert(frontier@[before.len() + j] == c);
                        } else {
                            assert(old_visited.contains(x));
                            if old_visited.contains(c) {
                            } else if c == child {
                            } else {
                                assert(old_frontier.contains(c));
                                let j = choose|j: int| 0 <= j < old_frontier.len() && old_frontier[j] == c;
                                assert(j < before.len());
                                assert(frontier@[j] == c);
                            }
                        }
                    }
                    assert forall|i: int| 0 <= i < visited@.len() implies universe.contains(
                        #[trigger] visited@[i],
                    ) by {
                        assert(visited@.contains(visited@[i]));
                    }
                    lemma_no_dup_subset_len(visited@, universe);
                }
            }
        }
        proof {
            assert forall|x: u128, c: u128| visited@.contains(x) && child_edge(nodes, x, c) implies visited@.contains(c) by {}
            assert(visited@[0] == node_id);
            assert forall|x: u128| x != node_id && reachable(nodes, node_id, x) implies descendants@.contains(x) by {
                lemma_closed_contains_reachable(nodes, visited@, node_id, x);
                let i = choose|i: int| 0 <= i < visited@.len() && visited@[i] == x;
                assert(i != 0);
                assert(descendants@[i - 1] == x);
            }
            assert forall|x: u128| descendants@.contains(x) implies x != node_id && reachable(
                nodes,
                node_id,
                x,
            ) by {
                let i = choose|i: int| 0 <= i < descendants@.len() && descendants@[i] == x;
                assert(visited@[i + 1] == x);
                assert(visited@[0] == node_id);
            }
            assert forall|a: int, b: int| 0 <= a < b < descendants@.len() implies descendants@[a]
                != descendants@[b] by {
                assert(visited@[a + 1] == descendants@[a]);
                assert(visited@[b + 1] == descendants@[b]);
            }
        }
        descendants
    }

    /// The full parent chain that starts at entry `start`.
    pub fn parent_chain(&self, start: usize) -> (path: Vec<usize>)
        requires
            start < self.state.nodes@.len(),
            !self.state.nodes@[start as int].archived,
        ensures
            is_full_chain(self.state.nodes@, start as int, path@),
            path@ == full_chain(self.state.nodes@, start as int),
    {
        let path = self.walk_parents(start);
        proof {
            let c = full_chain(self.state.nodes@, start as int);
            assert(is_full_chain(self.state.nodes@, start as int, c));
            lemma_full_chain_unique(self.state.nodes@, start as int, path@, c);
        }
        path
    }

    fn walk_parents(&self, start: usize) -> (path: Vec<usize>)
        requires
            start < self.state.nodes@.len(),
            !self.state.nodes@[start as int].archived,
        ensures
            is_full_chain(self.state.nodes@, start as int, path@),
    {
        let nodes = &self.state.nodes;
        let mut path: Vec<usize> = Vec::new();
        path.push(start);
        let mut ids: Vec<u128> = Vec::new();
        ids.push(nodes[start].id);
        let mut current = start;
        let count = nodes.len();
        proof {
            assert(ids@ =~= chain_ids(nodes@, path@));
        }
        loop
            invariant
                is_parent_chain(nodes@, path@),
                path@[0] == start,
                current == path@.last(),
                ids@ == chain_ids(nodes@, path@),
                count == nodes@.len(),
                nodes@ == self.state.nodes@,
            ensures
                is_full_chain(nodes@, start as int, path@),
            decreases nodes@.len() - path@.len(),
        {
            proof {
                lemma_chain_ids_distinct(nodes@, path@);
                lemma_distinct_indices_bounded(path@, count as nat);
            }
            match nodes[current].parent {
                ParentRef::Trunk => {
                    proof {
                        assert(nodes@[path@.last() as int].parent == ParentRef::Trunk);
                        assert(chain_complete(nodes@, path@));
                    }
                    return path;
                },
                ParentRef::Branch { node_id } => {
                    if ids_contain(&ids, node_id) {
                        proof {
                            assert(chain_ids(nodes@, path@).contains(node_id));
                            assert(chain_complete(nodes@, path@));
                        }
                        return path;
                    }
                    match self.state.position_by_id(node_id) {
                        None => {
                            return path;
                        },
                        Some(j) => {
                            let ghost old_path = path@;
                            path.push(j);
                            ids.push(nodes[j].id);
                            current = j;
                            proof {
                                assert(path@.len() == old_path.len() + 1);
                                assert(old_path =~= path@.take(old_path.len() as int));
                                assert(chain_ids(nodes@, old_path) =~= ids@.drop_last());
                                assert(ids@ =~= chain_ids(nodes@, path@));
                                assert forall|k: int| 0 <= k < path@.len() - 1 implies match #[trigger] nodes@[path@[k] as int].parent {
                                    ParentRef::Trunk => false,
                                    ParentRef::Branch { node_id } => !chain_ids(nodes@, path@.take(k + 1)).contains(node_id)
                                        && id_position(nodes@, node_id) == Some(path@[k + 1] as int),
                                } by {
                                    if k < old_path.len() - 1 {
                                        assert(path@.take(k + 1) =~= old_path.take(k + 1));
                                        assert(path@[k] == old_path[k]);
                                        assert(path@[k + 1] == old_path[k + 1]);
                                    } else {
                                        assert(path@.take(k + 1) =~= old_path);
                                    }
                                }
                                assert(is_parent_chain(nodes@, path@));
                                lemma_chain_ids_distinct(nodes@, path@);
                                lemma_distinct_indices_bounded(path@, count as nat);
                            }
                        },
                    }
                },
            }
        }
    }

    /// The number of parent steps above the branch with the given id before the chain reaches
    /// trunk, a cycle or an untracked parent; zero for an id that is not tracked.
    pub fn branch_depth(&self, node_id: u128) -> (r: usize)
        ensures
            match id_position(self.state.nodes@, node_id) {
                None => r == 0,
                Some(s) => r == full_chain(self.state.nodes@, s).len() - 1,
            },
            r == depth_of(self.state.nodes@, node_id),
    {
        match self.state.position_by_id(node_id) {
            None => 0,
            Some(s) => {
                let path = self.parent_chain(s);
                let r = path.len() - 1;
                r
            },
        }
    }

    /// The lineage of a branch: the branch, its parents up the full parent chain, and trunk at
    /// the end; an untracked branch stands alone.
    pub fn lineage(&self, branch_name: &str, trunk_branch: &str) -> (r: Vec<BranchLineageNode>)
        ensures
            match name_position(self.state.nodes@, branch_name@) {
                None => lineage_view(r@) == seq![(branch_name@, None::<u64>)],
                Some(s) => lineage_view(r@) == lineage_of_chain(
                    self.state.nodes@,
                    full_chain(self.state.nodes@, s),
                    trunk_branch@,
                ),
            },
    {
        let nodes = &self.state.nodes;
        match self.state.position_by_name(branch_name) {
            None => {
                let mut r: Vec<BranchLineageNode> = Vec::new();
                r.push(
                    BranchLineageNode {
                        branch_name: to_owned_string(branch_name),
                        pull_request_number: None,
                    },
                );
                proof {
                    assert(lineage_view(r@) =~= seq![(branch_name@, None::<u64>)]);
                }
                r
            },
            Some(s) => {
                let path = self.parent_chain(s);
                let mut r: Vec<BranchLineageNode> = Vec::new();
                let mut i: usize = 0;
                while i < path.len()
                    invariant
                        is_full_chain(nodes@, s as int, path@),
                        nodes@ == self.state.nodes@,
                        i <= path.len(),
                        lineage_view(r@) == lineage_entries(nodes@, path@.take(i as int)),
                    decreases path.len() - i,
                {
                    let n = &nodes[path[i]];
                    let number = match n.pull_request {
                        Some(pr) => Some(pr.number),
                        None => None,
                    };
                    let ghost before = r@;
                    proof {
                        assert(lineage_view(before).len() == i);
                    }
                    r.push(
                        BranchLineageNode {
                            branch_name: n.branch_name.clone(),
                            pull_request_number: number,
                        },
                    );
                    proof {
                        assert(lineage_view(r@)[i as int] == lineage_entry_of(nodes@[path@[i as int] as int]));
                        assert(path@.take(i as int + 1)[i as int] == path@[i as int]);
                        assert(lineage_view(r@) =~= lineage_entries(nodes@, path@.take(i as int + 1))) by {
                            let after = lineage_entries(nodes@, path@.take(i as int + 1));
                            assert(lineage_view(r@).len() == i + 1);
                            assert(after.len() == i + 1);
                            assert forall|j: int| 0 <= j < i + 1 implies lineage_view(r@)[j] == after[j] by {
                                if j < i {
                                    assert(r@[j] == before[j]);
                                    assert(lineage_view(r@)[j] == lineage_view(before)[j]);
                                    assert(path@.take(i as int + 1)[j] == path@.take(i as int)[j]);
                                    assert(lineage_entries(nodes@, path@.take(i as int))[j] == after[j]);
                                }
                            }
                        }
                    }
                    i = i + 1;
                }
                proof {
                    assert(path@.take(path.len() as int) =~= path@);
                }
                let last = &nodes[path[path.len() - 1]];
                if last.parent == ParentRef::Trunk && !str_equal(last.branch_name.as_str(), trunk_branch) {
                    let ghost before = r@;
                    r.push(
                        BranchLineageNode {
                            branch_name: to_owned_string(trunk_branch),
                            pull_request_number: None,
                        },
                    );
                    proof {
                        assert(lineage_view(r@) =~= lineage_view(before).push((trunk_branch@, None::<u64>)));
                    }
                }
                r
            },
        }
    }

    /// The name of the branch a node hangs on: trunk, or its tracked parent, if still tracked.
    pub fn parent_branch_name(&self, node: &BranchNode, trunk_branch: &str) -> (r: Option<String>)
        ensures
            match r {
                Some(s) => parent_name_spec(self.state.nodes@, node.parent, trunk_branch@) == Some(s@),
                None => parent_name_spec(self.state.nodes@, node.parent, trunk_branch@) is None,
            },
    {
        match node.parent {
            ParentRef::Trunk => Some(to_owned_string(trunk_branch)),
            ParentRef::Branch { node_id } => match self.state.find_branch_by_id(node_id) {
                Some(parent) => Some(parent.branch_name.clone()),
                None => None,
            },
        }
    }
}

/// A branch subtree as plain values.
pub struct SubtreeView {
    pub branch_name: Seq<char>,
    pub children: Seq<SubtreeView>,
}

/// The plain value of a branch subtree.
pub open spec fn subtree_view(t: BranchTreeNode) -> SubtreeView
    decreases t, 0int,
{
    SubtreeView { branch_name: t.branch_name@, children: subtree_forest_upto(t.children@, t.children@.len() as int) }
}

/// The plain values of the first `k` subtrees of `ts`.
pub open spec fn subtree_forest_upto(ts: Seq<BranchTreeNode>, k: int) -> Seq<SubtreeView>
    decreases ts, k,
{
    if k <= 0 || k > ts.len() {
        Seq::<SubtreeView>::empty()
    } else {
        subtree_forest_upto(ts, k - 1).push(subtree_view(ts[k - 1]))
    }
}

proof fn lemma_subtree_forest_push(ts: Seq<BranchTreeNode>, t: BranchTreeNode)
    ensures
        subtree_forest_upto(ts.push(t), ts.len() + 1 as int) == subtree_forest_upto(ts, ts.len() as int).push(subtree_view(t)),
{
    lemma_subtree_forest_prefix(ts.push(t), ts, ts.len() as int);
}

/// Appending a subtree to a forest appends its plain value to the forest's plain values.
pub proof fn lemma_subtree_forest_push_pub(ts: Seq<BranchTreeNode>, t: BranchTreeNode)
    ensures
        subtree_forest_upto(ts.push(t), ts.len() + 1 as int) == subtree_forest_upto(ts, ts.len() as int).push(subtree_view(t)),
{
    lemma_subtree_forest_push(ts, t);
}

proof fn lemma_subtree_forest_prefix(a: Seq<BranchTreeNode>, b: Seq<BranchTreeNode>, k: int)
    requires
        0 <= k <= a.len(),
        k <= b.len(),
        forall|i: int| 0 <= i < k ==> a[i] == b[i],
    ensures
        subtree_forest_upto(a, k) == subtree_forest_upto(b, k),
    decreases k,
{
    if k > 0 {
        lemma_subtree_forest_prefix(a, b, k - 1);
    }
}

/// A subtree walk that failed: on a cycle at the id, or on an id no active branch has.
pub enum SubtreeFailure {
    Cycle(u128),
    Missing,
}

/// The subtree of branch `id`, children in store order, walked depth first with the ids seen
/// so far in `seen`; the walk fails on an id seen before or not tracked. Gives the subtree and
/// the ids seen after it.
pub open spec fn subtree_walk(nodes: Seq<BranchNode>, id: u128, seen: Seq<u128>, fuel: nat) -> Result<
    (SubtreeView, Seq<u128>),
    SubtreeFailure,
>
    decreases fuel, 0int,
{
    if seen.contains(id) || fuel == 0 {
        Err(SubtreeFailure::Cycle(id))
    } else {
        let seen1 = seen.push(id);
        match crate::model::node_with_id(nodes, id) {
            None => Err(SubtreeFailure::Missing),
            Some(n) => match subtree_children(nodes, children_spec(nodes, id), 0, seen1, (fuel - 1) as nat) {
                Err(f) => Err(f),
                Ok((cs, seen2)) => Ok((SubtreeView { branch_name: n.branch_name@, children: cs }, seen2)),
            },
        }
    }
}

/// The subtrees of the branches `kids[i..]`, walked in turn.
pub open spec fn subtree_children(nodes: Seq<BranchNode>, kids: Seq<u128>, i: int, seen: Seq<u128>, fuel: nat) -> Result<
    (Seq<SubtreeView>, Seq<u128>),
    SubtreeFailure,
>
    decreases fuel, kids.len() - i + 1,
{
    if i < 0 || i >= kids.len() {
        Ok((Seq::<SubtreeView>::empty(), seen))
    } else {
        match subtree_walk(nodes, kids[i], seen, fuel) {
            Err(f) => Err(f),
            Ok((t, seen1)) => match subtree_children(nodes, kids, i + 1, seen1, fuel) {
                Err(f) => Err(f),
                Ok((ts, seen2)) => Ok((seq![t] + ts, seen2)),
            },
        }
    }
}

/// The message of a subtree walk that met a cycle.
pub open spec fn cycle_message(nodes: Seq<BranchNode>, id: u128) -> Seq<char> {
    "cycle detected in branch tree at node "@ + crate::ids::uuid_text_spec(id) + match crate::model::node_with_id(
        nodes,
        id,
    ) {
        Some(n) => " (branch: "@ + n.branch_name@ + ")"@,
        None => Seq::<char>::empty(),
    }
}

impl<'a> BranchGraph<'a> {
    fn subtree_inner(&self, node_id: u128, visited: &mut Vec<u128>, fuel: usize) -> (r: Result<
        BranchTreeNode,
        DigError,
    >)
        ensures
            match subtree_walk(self.state.nodes@, node_id, old(visited)@, fuel as nat) {
                Ok((t, seen)) => r matches Ok(x) && subtree_view(x) == t && final(visited)@ == seen,
                Err(SubtreeFailure::Cycle(id)) => r matches Err(e) && e.kind == ErrorKind::InvalidData
                    && e.message@ == cycle_message(self.state.nodes@, id),
                Err(SubtreeFailure::Missing) => r matches Err(e) && e.kind == ErrorKind::NotFound
                    && e.message@ == crate::model::branch_not_found_message(),
            },
        decreases fuel, 0int,
    {
        if fuel == 0 || ids_contain(visited, node_id) {
            let mut message = to_owned_string("cycle detected in branch tree at node ");
            push_str(&mut message, crate::ids::uuid_text(node_id).as_str());
            match self.state.find_branch_by_id(node_id) {
                Some(n) => {
                    push_str(&mut message, " (branch: ");
                    push_str(&mut message, n.branch_name.as_str());
                    push_str(&mut message, ")");
                },
                None => {},
            }
            return Err(DigError::new(ErrorKind::InvalidData, message));
        }
        visited.push(node_id);
        let node = match self.state.find_branch_by_id(node_id) {
            Some(n) => n,
            None => return Err(crate::model::branch_not_found()),
        };
        let kids = self.active_children_ids(node_id);
        let mut children: Vec<BranchTreeNode> = Vec::new();
        let mut i: usize = 0;
        let ghost start_seen = visited@;
        proof {
            assert(subtree_forest_upto(children@, 0) =~= Seq::<SubtreeView>::empty());
        }
        while i < kids.len()
            invariant
                i <= kids.len(),
                kids@ == children_spec(self.state.nodes@, node_id),
                children@.len() == i,
                fuel > 0,
                !old(visited)@.contains(node_id),
                start_seen == old(visited)@.push(node_id),
                crate::model::node_with_id(self.state.nodes@, node_id) == Some(*node),
                subtree_children(self.state.nodes@, kids@, 0, start_seen, (fuel - 1) as nat) == match subtree_children(
                    self.state.nodes@,
                    kids@,
                    i as int,
                    visited@,
                    (fuel - 1) as nat,
                ) {
                    Ok((ts, seen2)) => Ok::<(Seq<SubtreeView>, Seq<u128>), SubtreeFailure>(
                        (subtree_forest_upto(children@, i as int) + ts, seen2),
                    ),
                    Err(f) => Err::<(Seq<SubtreeView>, Seq<u128>), SubtreeFailure>(f),
                },
            decreases kids.len() - i,
        {
            let ghost seen_before = visited@;
            let child = self.subtree_inner(kids[i], visited, fuel - 1);
            match child {
                Ok(t) => {
                    let ghost old_children = children@;
                    proof {
                        lemma_subtree_forest_push(children@, t);
                    }
                    children.push(t);
                    proof {
                        let rest = subtree_children(self.state.nodes@, kids@, i as int + 1, visited@, (fuel - 1) as nat);
                        match rest {
                            Ok((ts, seen2)) => {
                                assert(subtree_forest_upto(children@, i as int + 1) + ts =~= subtree_forest_upto(
                                    old_children,
                                    i as int,
                                ) + (seq![subtree_view(t)] + ts));
                            },
                            Err(_) => {},
                        }
                    }
                },
                Err(e) => {
                    proof {
                        assert(subtree_children(self.state.nodes@, kids@, i as int, seen_before, (fuel - 1) as nat) is Err);
                        let f = subtree_children(self.state.nodes@, kids@, i as int, seen_before, (fuel - 1) as nat)->Err_0;
                        assert(subtree_children(self.state.nodes@, kids@, 0, start_seen, (fuel - 1) as nat) == Err::<
                            (Seq<SubtreeView>, Seq<u128>),
                            SubtreeFailure,
                        >(f));
                        assert(subtree_walk(self.state.nodes@, node_id, old(visited)@, fuel as nat) == Err::<
                            (SubtreeView, Seq<u128>),
                            SubtreeFailure,
                        >(f));
                    }
                    return Err(e);
                },
            }
            i = i + 1;
        }
        proof {
            assert(subtree_forest_upto(children@, i as int) + Seq::<SubtreeView>::empty() =~= subtree_forest_upto(
                children@,
                i as int,
            ));
        }
        Ok(BranchTreeNode { branch_name: node.branch_name.clone(), children })
    }

    /// The subtree of the branch with the given id: the branch and, in store order, the subtrees
    /// of its active children. A cycle or an untracked id fails the walk; the walk goes no
    /// deeper than there are tracked entries, which only a cycle can reach.
    pub fn subtree(&self, node_id: u128) -> (r: Result<BranchTreeNode, DigError>)
        ensures
            match subtree_walk(self.state.nodes@, node_id, Seq::<u128>::empty(), self.state.nodes@.len()) {
                Ok((t, _)) => r matches Ok(x) && subtree_view(x) == t,
                Err(SubtreeFailure::Cycle(id)) => r matches Err(e) && e.kind == ErrorKind::InvalidData
                    && e.message@ == cycle_message(self.state.nodes@, id),
                Err(SubtreeFailure::Missing) => r matches Err(e) && e.kind == ErrorKind::NotFound
                    && e.message@ == crate::model::branch_not_found_message(),
            },
    {
        let mut visited: Vec<u128> = Vec::new();
        self.subtree_inner(node_id, &mut visited, self.state.nodes.len())
    }

    /// The names of the active branches below the given one that no longer exist locally.
    pub fn missing_local_descendants(&self, node_id: u128, heads: &Vec<crate::restack::LocalBranchHead>) -> (r: Vec<String>)
        ensures
            forall|x: Seq<char>|
                #![trigger crate::text::views(r@).contains(x)]
                crate::text::views(r@).contains(x) <==> exists|d: u128|
                    #![trigger missing_name(self.state.nodes@, heads@, d, x)]
                    d != node_id && reachable(self.state.nodes@, node_id, d) && missing_name(
                        self.state.nodes@,
                        heads@,
                        d,
                        x,
                    ),
    {
        let ds = self.active_descendant_ids(node_id);
        let mut missing: Vec<String> = Vec::new();
        proof {
            assert(crate::text::views(missing@) =~= Seq::<Seq<char>>::empty());
        }
        let mut i: usize = 0;
        while i < ds.len()
            invariant
                i <= ds.len(),
                crate::text::views(missing@) == missing_upto(self.state.nodes@, heads@, ds@, i as int),
            decreases ds.len() - i,
        {
            match self.state.find_branch_by_id(ds[i]) {
                Some(d) => {
                    if crate::restack::find_head(heads, d.branch_name.as_str()).is_none() {
                        crate::text::push_string(&mut missing, d.branch_name.clone());
                    }
                },
                None => {},
            }
            i = i + 1;
        }
        proof {
            assert forall|x: Seq<char>|
                #![trigger crate::text::views(missing@).contains(x)]
                crate::text::views(missing@).contains(x) <==> exists|d: u128|
                    #![trigger missing_name(self.state.nodes@, heads@, d, x)]
                    d != node_id && reachable(self.state.nodes@, node_id, d) && missing_name(
                        self.state.nodes@,
                        heads@,
                        d,
                        x,
                    ) by {
                lemma_missing_upto(self.state.nodes@, heads@, ds@, ds@.len() as int, x);
                if crate::text::views(missing@).contains(x) {
                    let j = choose|j: int| 0 <= j < ds@.len() && missing_name(self.state.nodes@, heads@, #[trigger] ds@[j], x);
                    assert(ds@.contains(ds@[j]));
                }
                if exists|d: u128|
                    #![trigger missing_name(self.state.nodes@, heads@, d, x)]
                    d != node_id && reachable(self.state.nodes@, node_id, d) && missing_name(
                        self.state.nodes@,
                        heads@,
                        d,
                        x,
                    ) {
                    let d = choose|d: u128|
                        #![trigger missing_name(self.state.nodes@, heads@, d, x)]
                        d != node_id && reachable(self.state.nodes@, node_id, d) && missing_name(
                            self.state.nodes@,
                            heads@,
                            d,
                            x,
                        );
                    assert(ds@.contains(d));
                    let j = choose|j: int| 0 <= j < ds@.len() && ds@[j] == d;
                    assert(missing_name(self.state.nodes@, heads@, ds@[j], x));
                }
            }
        }
        missing
    }
}

/// Whether the active branch with id `d` is named `x` and has no local branch.
pub open spec fn missing_name(nodes: Seq<BranchNode>, heads: Seq<crate::restack::LocalBranchHead>, d: u128, x: Seq<char>) -> bool {
    match crate::model::node_with_id(nodes, d) {
        Some(n) => n.branch_name@ == x && crate::restack::head_lookup(heads, x) is None,
        None => false,
    }
}

/// The names of the branches among `ds[..k]` that have no local branch, in order.
pub open spec fn missing_upto(nodes: Seq<BranchNode>, heads: Seq<crate::restack::LocalBranchHead>, ds: Seq<u128>, k: int) -> Seq<Seq<char>>
    decreases k,
{
    if k <= 0 || k > ds.len() {
        Seq::<Seq<char>>::empty()
    } else {
        let prev = missing_upto(nodes, heads, ds, k - 1);
        match crate::model::node_with_id(nodes, ds[k - 1]) {
            Some(n) => if crate::restack::head_lookup(heads, n.branch_name@) is None {
                prev.push(n.branch_name@)
            } else {
                prev
            },
            None => prev,
        }
    }
}

proof fn lemma_missing_upto(nodes: Seq<BranchNode>, heads: Seq<crate::restack::LocalBranchHead>, ds: Seq<u128>, k: int, x: Seq<char>)
    requires
        0 <= k <= ds.len(),
    ensures
        missing_upto(nodes, heads, ds, k).contains(x) <==> exists|j: int| 0 <= j < k && missing_name(nodes, heads, #[trigger] ds[j], x),
    decreases k,
{
    if k > 0 {
        lemma_missing_upto(nodes, heads, ds, k - 1, x);
        let prev = missing_upto(nodes, heads, ds, k - 1);
        let cur = missing_upto(nodes, heads, ds, k);
        if cur.contains(x) && !prev.contains(x) {
            assert(missing_name(nodes, heads, ds[k - 1], x));
        }
        if prev.contains(x) {
            let i = choose|i: int| 0 <= i < prev.len() && prev[i] == x;
            assert(cur[i] == x);
        }
        if exists|j: int| 0 <= j < k && missing_name(nodes, heads, #[trigger] ds[j], x) {
            let j = choose|j: int| 0 <= j < k && missing_name(nodes, heads, #[trigger] ds[j], x);
            if j == k - 1 {
                assert(cur[cur.len() - 1] == x);
            }
        }
    }
}

/// Refuses a branch whose tracked descendants are missing locally.
pub fn ensure_descendants_local(branch_name: &str, missing: &Vec<String>) -> (r: Result<(), DigError>)
    ensures
        missing@.len() == 0 <==> r is Ok,
        r matches Err(e) ==> e.kind == ErrorKind::NotFound && e.message@ == "tracked descendants of "@
            + crate::error::quoted(branch_name@) + " are missing locally: "@ + crate::text::join_spec(
            crate::text::views(missing@),
            ", "@,
        ),
{
    if missing.len() == 0 {
        return Ok(());
    }
    let mut message = crate::error::message_with_name("tracked descendants of ", branch_name, " are missing locally: ");
    push_str(&mut message, crate::text::join(missing, ", ").as_str());
    Err(DigError::new(ErrorKind::NotFound, message))
}

/// Whether some active branch below `id` has no local branch.
pub open spec fn descendant_missing(nodes: Seq<BranchNode>, heads: Seq<crate::restack::LocalBranchHead>, id: u128) -> bool {
    exists|d: u128, x: Seq<char>|
        #![trigger missing_name(nodes, heads, d, x)]
        d != id && reachable(nodes, id, d) && missing_name(nodes, heads, d, x)
}

/// Whether `m` lists exactly the names of the active branches below `id` that have no local
/// branch.
pub open spec fn lists_missing(nodes: Seq<BranchNode>, heads: Seq<crate::restack::LocalBranchHead>, id: u128, m: Seq<Seq<char>>) -> bool {
    forall|x: Seq<char>|
        #![trigger m.contains(x)]
        m.contains(x) <==> exists|d: u128|
            #![trigger missing_name(nodes, heads, d, x)]
            d != id && reachable(nodes, id, d) && missing_name(nodes, heads, d, x)
}

/// The refusal of branch `name` whose descendants `m` are missing locally.
pub open spec fn missing_descendants_error(name: Seq<char>, m: Seq<Seq<char>>) -> crate::restack::PlanError {
    (ErrorKind::NotFound, "tracked descendants of "@ + crate::error::quoted(name) + " are missing locally: "@
        + crate::text::join_spec(m, ", "@))
}

/// Whether `e` refuses branch `name` with id `id` for its descendants that are missing
/// locally, naming each of them.
pub open spec fn refused_for_missing(
    e: DigError,
    nodes: Seq<BranchNode>,
    heads: Seq<crate::restack::LocalBranchHead>,
    id: u128,
    name: Seq<char>,
) -> bool {
    exists|m: Seq<Seq<char>>|
        lists_missing(nodes, heads, id, m) && (e.kind, e.message@) == missing_descendants_error(name, m)
}

/// Refuses the branch `branch_name` with id `node_id` when some active branch below it has no
/// local branch, naming those branches.
pub fn require_local_descendants(
    state: &DigState,
    node_id: u128,
    branch_name: &str,
    heads: &Vec<crate::restack::LocalBranchHead>,
) -> (r: Result<(), DigError>)
    ensures
        r is Ok <==> !descendant_missing(state.nodes@, heads@, node_id),
        r matches Err(e) ==> refused_for_missing(e, state.nodes@, heads@, node_id, branch_name@),
{
    let graph = BranchGraph::new(state);
    let missing = graph.missing_local_descendants(node_id, heads);
    let ghost m = crate::text::views(missing@);
    proof {
        let nodes = state.nodes@;
        assert(lists_missing(nodes, heads@, node_id, m));
        if missing@.len() > 0 {
            assert(m.contains(m[0]));
            let x = m[0];
            let d = choose|d: u128|
                #![trigger missing_name(nodes, heads@, d, x)]
                d != node_id && reachable(nodes, node_id, d) && missing_name(nodes, heads@, d, x);
            assert(missing_name(nodes, heads@, d, x));
        }
        if descendant_missing(nodes, heads@, node_id) {
            let (d, x) = choose|d: u128, x: Seq<char>|
                #![trigger missing_name(nodes, heads@, d, x)]
                d != node_id && reachable(nodes, node_id, d) && missing_name(nodes, heads@, d, x);
            assert(m.contains(x));
        }
    }
    let r = ensure_descendants_local(branch_name, &missing);
    proof {
        if r is Err {
            let e = r->Err_0;
            assert(lists_missing(state.nodes@, heads@, node_id, m) && (e.kind, e.message@)
                == missing_descendants_error(branch_name@, m));
        }
    }
    r
}

} // verus!
