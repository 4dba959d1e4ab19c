//! Uniformly random spanning trees by loop-erased random walks.

use rand::rngs::SmallRng;
use vstd::prelude::*;
use crate::graph::{Edge, Graph};
use crate::random::Pick;
use crate::recom::split;
use crate::samplers::SpanningTreeSampler;
use crate::spanning_tree::{greedy_spanning_tree, SpanningTreeBuffer, SpanningTreeError};
use crate::{connectivity, graph, random, samplers, spanning_tree};

verus! {

/// The state of the walks.
#[derive(Debug)]
pub struct USTBuffer {
    /// Whether each node is in the tree.
    pub in_tree: Vec<bool>,
    /// The node that each node's walk moved to last, or -1.
    pub next: Vec<i64>,
    /// The places of the tree's edges.
    pub edges: Vec<usize>,
}

impl USTBuffer {
    /// No node is in the tree and no walk has moved.
    pub open spec fn blank(&self) -> bool {
        &&& forall|v: int| 0 <= v < self.in_tree.len() ==> !(#[trigger] self.in_tree[v])
        &&& forall|v: int| 0 <= v < self.next.len() ==> (#[trigger] self.next[v]) == -1
        &&& self.edges@ == Seq::<usize>::empty()
    }

    /// A buffer for trees on up to `n` nodes.
    pub fn new(n: usize) -> (r: USTBuffer)
        requires
            n > 0,
        ensures
            r.in_tree.len() == n,
            r.next.len() == n,
            r.blank(),
    {
        let mut in_tree: Vec<bool> = Vec::new();
        let mut next: Vec<i64> = Vec::new();
        let mut v: usize = 0;
        while v < n
            invariant
                v <= n,
                in_tree.len() == v,
                next.len() == v,
                forall|u: int| 0 <= u < v ==> !(#[trigger] in_tree[u]),
                forall|u: int| 0 <= u < v ==> (#[trigger] next[u]) == -1,
            decreases n - v,
        {
            in_tree.push(false);
            next.push(-1);
            v += 1;
        }
        USTBuffer { in_tree, next, edges: Vec::with_capacity(n - 1) }
    }

    /// Starts the tree at a root that was drawn among the nodes of a graph.
    pub fn plant(&mut self, graph: &Graph, root: Pick) -> (r: usize)
        requires
            root.among(graph.order()),
            graph.order() <= old(self).in_tree.len(),
        ensures
            r == root.value,
            final(self).in_tree@ == old(self).in_tree@.update(r as int, true),
            final(self).next == old(self).next,
            final(self).edges == old(self).edges,
    {
        self.in_tree.set(root.value, true);
        root.value
    }

    /// Resets the buffer.
    pub fn clear(&mut self)
        ensures
            final(self).in_tree.len() == old(self).in_tree.len(),
            final(self).next.len() == old(self).next.len(),
            final(self).blank(),
    {
        let n: usize = self.in_tree.len();
        let mut v: usize = 0;
        while v < n
            invariant
                v <= n == self.in_tree.len(),
                n == old(self).in_tree.len(),
                self.next.len() == old(self).next.len(),
                forall|u: int| 0 <= u < v ==> !(#[trigger] self.in_tree[u]),
            decreases n - v,
        {
            self.in_tree.set(v, false);
            v += 1;
        }
        let m: usize = self.next.len();
        let mut v: usize = 0;
        while v < m
            invariant
                v <= m == self.next.len(),
                m == old(self).next.len(),
                self.in_tree.len() == old(self).in_tree.len(),
                forall|u: int| 0 <= u < self.in_tree.len() ==> !(#[trigger] self.in_tree[u]),
                forall|u: int| 0 <= u < v ==> (#[trigger] self.next[u]) == -1,
            decreases m - v,
        {
            self.next.set(v, -1);
            v += 1;
        }
        self.edges.clear();
    }

    /// Takes a walk that ends in the tree into it, without its loops.
    pub fn take_walk(&mut self, walk: &Vec<usize>)
        requires
            walk.len() > 0,
            forall|i: int|
                0 <= i < walk.len() ==> (#[trigger] walk[i]) < old(self).in_tree.len() && walk[i]
                    < old(self).next.len() && walk[i] <= i64::MAX,
            forall|i: int| 0 <= i < walk.len() - 1 ==> !old(self).in_tree[(
            #[trigger] walk[i]) as int],
            old(self).in_tree[walk@.last() as int],
        ensures
            final(self).in_tree.len() == old(self).in_tree.len(),
            final(self).next.len() == old(self).next.len(),
            final(self).edges == old(self).edges,
            gains(old(self).in_tree@, final(self).in_tree@, final(self).next@, erased(walk@)),
            forall|v: int|
                0 <= v < final(self).next.len() ==> (#[trigger] final(self).next[v])
                    == old(self).next[v] || exists|i: int|
                    0 <= i < walk.len() - 1 && #[trigger] walk[i] == v && final(self).next[v]
                        == walk[i + 1],
    {
        let ghost before = *self;
        let len: usize = walk.len();
        let mut i: usize = 0;
        let ghost mut trail: Seq<usize> = erased(walk@.take(1));
        proof {
            assert(walk@.take(1).drop_last() =~= Seq::<usize>::empty());
            assert(erased(Seq::<usize>::empty()) =~= Seq::<usize>::empty());
            assert(trail =~= seq![walk[0]]);
        }
        while i < len - 1
            invariant
                len == walk.len(),
                0 <= i < len,
                forall|k: int|
                    0 <= k < walk.len() ==> (#[trigger] walk[k]) < before.in_tree.len() && walk[k]
                        < before.next.len() && walk[k] <= i64::MAX,
                forall|k: int| 0 <= k < walk.len() - 1 ==> !before.in_tree[(
                #[trigger] walk[k]) as int],
                self.in_tree == before.in_tree,
                self.edges == before.edges,
                self.next.len() == before.next.len(),
                trail == erased(walk@.take(i + 1)),
                trail.len() > 0,
                trail.no_duplicates(),
                trail.last() == walk[i as int],
                forall|k: int|
                    0 <= k < trail.len() ==> (#[trigger] trail[k]) < before.in_tree.len()
                        && trail[k] < before.next.len() && walk@.take(i + 1).contains(trail[k]),
                forall|k: int|
                    0 <= k < trail.len() - 1 ==> !before.in_tree[(#[trigger] trail[k]) as int]
                        && self.next[trail[k] as int] == trail[k + 1],
                forall|v: int|
                    0 <= v < self.next.len() ==> (#[trigger] self.next[v]) == before.next[v]
                        || exists|k: int|
                        0 <= k < i && #[trigger] walk[k] == v && self.next[v] == walk[k + 1],
            decreases len - i,
        {
            let u: usize = walk[i];
            let w: usize = walk[i + 1];
            let ghost prior = *self;
            self.next.set(u, w as i64);
            proof {
                let longer = walk@.take(i + 2);
                assert(longer.drop_last() =~= walk@.take(i + 1));
                assert(longer.last() == w);
                let e = erased(longer);
                assert forall|k: int| 0 <= k < e.len() implies (#[trigger] e[k])
                    < before.in_tree.len() && e[k] < before.next.len() && longer.contains(e[k]) by {
                    if k < trail.len() && e[k] == trail[k] {
                        let shorter = walk@.take(i + 1);
                        let m = choose|m: int| 0 <= m < shorter.len() && shorter[m] == trail[k];
                        assert(longer[m] == e[k]);
                    } else {
                        assert(longer[i + 1] == w);
                    }
                }
                assert(!before.in_tree[walk[i as int] as int]);
                assert forall|k: int| 0 <= k < e.len() - 1 implies !before.in_tree[(
                #[trigger] e[k]) as int] && self.next[e[k] as int] == e[k + 1] by {
                    assert(e[k] == trail[k]);
                    if k < trail.len() - 1 {
                        assert(trail[k] != trail[trail.len() - 1]);
                        assert(prior.next[trail[k] as int] == trail[k + 1]);
                    }
                }
                assert forall|v: int| 0 <= v < self.next.len() implies (#[trigger] self.next[v])
                    == before.next[v] || exists|k: int|
                    0 <= k < i + 1 && #[trigger] walk[k] == v && self.next[v] == walk[k + 1] by {
                    if v == u {
                        assert(walk[i as int] == v);
                    } else {
                        assert(self.next[v] == prior.next[v]);
                    }
                }
                trail = e;
            }
            i += 1;
        }
        assert(walk@.take(len as int) =~= walk@);
        let ghost walked = *self;
        let ghost last = (trail.len() - 1) as int;
        let ghost mut k: int = 0;
        proof {
            erased_leads_on(walk@, Seq::empty());
        }
        let mut u: usize = walk[0];
        while !self.in_tree[u]
            invariant
                trail == erased(walk@),
                trail.len() > 0,
                trail.no_duplicates(),
                last == trail.len() - 1,
                0 <= k <= last,
                u == trail[k],
                before.in_tree[trail[last] as int],
                forall|j: int|
                    0 <= j < trail.len() ==> (#[trigger] trail[j]) < before.in_tree.len()
                        && trail[j] < before.next.len(),
                forall|j: int|
                    0 <= j < trail.len() - 1 ==> !before.in_tree[(#[trigger] trail[j]) as int]
                        && walked.next[trail[j] as int] == trail[j + 1],
                walked.in_tree == before.in_tree,
                walked.next.len() == before.next.len(),
                self.next == walked.next,
                self.edges == before.edges,
                self.in_tree.len() == before.in_tree.len(),
                forall|v: int|
                    0 <= v < before.in_tree.len() ==> (#[trigger] self.in_tree[v] <==> (
                    before.in_tree[v] || exists|j: int| 0 <= j < k && #[trigger] trail[j] == v)),
            decreases last - k,
        {
            assert(k < last);
            let ghost prior = *self;
            self.in_tree.set(u, true);
            assert(walked.next[trail[k] as int] == trail[k + 1]);
            u = self.next[u] as usize;
            proof {
                k = k + 1;
                assert forall|v: int| 0 <= v < before.in_tree.len() implies (
                #[trigger] self.in_tree[v] <==> (before.in_tree[v] || exists|j: int|
                    0 <= j < k && #[trigger] trail[j] == v)) by {
                    assert(prior.in_tree[v] <==> (before.in_tree[v] || exists|j: int|
                        0 <= j < k - 1 && #[trigger] trail[j] == v));
                    if v == trail[k - 1] {
                        assert(trail[k - 1] == v);
                    } else if exists|j: int| 0 <= j < k && #[trigger] trail[j] == v {
                        let j = choose|j: int| 0 <= j < k && #[trigger] trail[j] == v;
                        assert(j < k - 1);
                        assert(trail[j] == v);
                    }
                }
            }
        }
        proof {
            assert(k == last) by {
                if k < last {
                    assert(!before.in_tree[trail[k] as int]);
                    let j = choose|j: int| 0 <= j < k && #[trigger] trail[j] == u;
                    assert(trail[j] == trail[k]);
                }
            }
            assert forall|v: int| 0 <= v < before.in_tree@.len() implies (
            #[trigger] self.in_tree@[v] <==> before.in_tree@[v] || trail.contains(v as usize)) by {
                assert(self.in_tree[v] <==> (before.in_tree[v] || exists|j: int|
                    0 <= j < k && #[trigger] trail[j] == v));
                if trail.contains(v as usize) {
                    let j = choose|j: int| 0 <= j < trail.len() && trail[j] == v as usize;
                    assert(trail[j] == v);
                }
                if exists|j: int| 0 <= j < k && #[trigger] trail[j] == v {
                    let j = choose|j: int| 0 <= j < k && #[trigger] trail[j] == v;
                    assert(trail[j] == v as usize);
                }
            }
        }
    }

    /// The tree so far: each node in it other than the root has an edge to the
    /// node after it, which is in the tree one level closer to the root.
    pub open spec fn grown(&self, graph: &Graph, root: int, depth: Seq<int>) -> bool {
        let n = graph.order() as int;
        &&& self.in_tree.len() >= n
        &&& self.next.len() >= n
        &&& depth.len() == n
        &&& 0 <= root < n
        &&& self.in_tree[root]
        &&& self.next[root] == -1
        &&& depth[root] == 0
        &&& forall|v: int|
            0 <= v < n ==> (#[trigger] self.next[v]) == -1 || (0 <= self.next[v] < n
                && graph.neighbors[v]@.contains(self.next[v] as usize) && (graph.valid()
                ==> graph::joined(graph.edges@, v, self.next[v] as int)))
        &&& forall|v: int|
            0 <= v < n && (#[trigger] self.in_tree[v]) && v != root ==> {
                &&& 0 <= self.next[v] < n
                &&& self.in_tree[self.next[v] as int]
                &&& depth[v] == depth[self.next[v] as int] + 1
                &&& depth[v] > 0
            }
    }
}

/// Whether neighbor lists hold a pair of nodes that no edge joins.
pub open spec fn lists_no_edge(graph: &Graph) -> bool {
    exists|v: int, w: usize|
        0 <= v < graph.order() && #[trigger] graph.neighbors[v]@.contains(w) && !graph::joined(
            graph.edges@,
            v,
            w as int,
        )
}

/// Why a tree of a graph could not be drawn by walks: the graph is not
/// connected, or neighbor lists hold a pair of nodes that no edge joins.
pub open spec fn walks_fail(graph: &Graph, e: SpanningTreeError) -> bool {
    &&& spanning_tree::lacks_edges(graph, e)
    &&& lists_no_edge(graph) || !connectivity::all_connected(graph.edges@, graph.order() as int)
}

/// A walk without its loops: a return to a node takes off what came between.
pub open spec fn erased(walk: Seq<usize>) -> Seq<usize>
    decreases walk.len(),
{
    if walk.len() == 0 {
        Seq::empty()
    } else {
        let before = erased(walk.drop_last());
        if before.contains(walk.last()) {
            before.take(before.index_of(walk.last()) + 1)
        } else {
            before.push(walk.last())
        }
    }
}

/// Whether a tree gains the nodes of a path that leads to it, each with its
/// move.
pub open spec fn gains(
    before: Seq<bool>,
    after: Seq<bool>,
    next: Seq<i64>,
    path: Seq<usize>,
) -> bool {
    &&& path.len() > 0
    &&& path.no_duplicates()
    &&& before[path.last() as int]
    &&& forall|i: int|
        0 <= i < path.len() - 1 ==> !before[(#[trigger] path[i]) as int] && next[path[i] as int]
            == path[i + 1]
    &&& after.len() == before.len()
    &&& forall|v: int|
        0 <= v < before.len() ==> (#[trigger] after[v] <==> before[v] || path.contains(
            v as usize,
        ))
}

/// Erasing loops leaves a path from the start of the walk to its end, along
/// moves of the walk.
proof fn erased_leads_on(walk: Seq<usize>, lists: Seq<Vec<usize>>)
    requires
        walk.len() > 0,
    ensures
        erased(walk).len() > 0,
        erased(walk).no_duplicates(),
        erased(walk)[0] == walk[0],
        erased(walk).last() == walk.last(),
        forall|x: usize| #[trigger] erased(walk).contains(x) ==> walk.contains(x),
        split::follows(lists, walk) ==> split::follows(lists, erased(walk)),
    decreases walk.len(),
{
    let init = walk.drop_last();
    let before = erased(init);
    let last = walk.last();
    if init.len() == 0 {
        assert(before =~= Seq::<usize>::empty());
        assert(erased(walk) =~= seq![last]);
        assert(walk.contains(walk[0]));
    } else {
        erased_leads_on(init, lists);
        assert forall|x: usize| #[trigger] erased(walk).contains(x) implies walk.contains(x) by {
            if x != last {
                let k = choose|k: int| 0 <= k < erased(walk).len() && erased(walk)[k] == x;
                assert(before[k] == x);
                assert(before.contains(x));
                let m = choose|m: int| 0 <= m < init.len() && init[m] == x;
                assert(walk[m] == x);
            } else {
                assert(walk[walk.len() - 1] == x);
            }
        }
        if split::follows(lists, walk) {
            assert forall|k: int| 0 <= k < init.len() - 1 implies lists[(
            #[trigger] init[k]) as int]@.contains(init[k + 1]) by {
                assert(walk[k] == init[k] && walk[k + 1] == init[k + 1]);
            }
            assert(split::follows(lists, init));
            assert(lists[walk[walk.len() - 2] as int]@.contains(walk[walk.len() - 1]));
            let e = erased(walk);
            assert forall|k: int| 0 <= k < e.len() - 1 implies lists[(
            #[trigger] e[k]) as int]@.contains(e[k + 1]) by {
                if k + 1 < before.len() {
                    assert(before[k] == e[k]);
                    assert(lists[before[k] as int]@.contains(before[k + 1]));
                }
            }
        }
    }
}

/// Whether a walk along neighbor lists is what a generator gives next: each
/// move goes to the neighbor that it picks among all.
pub open spec fn walks_by(
    lists: Seq<Vec<usize>>,
    walk: Seq<usize>,
    before: SmallRng,
    after: SmallRng,
) -> bool
    decreases walk.len(),
{
    if walk.len() <= 1 {
        before == after
    } else {
        let around = lists[walk[walk.len() - 2] as int]@;
        exists|pick: Pick, between: SmallRng|
            {
                &&& walks_by(lists, walk.drop_last(), before, between)
                &&& #[trigger] random::picks(between, around.len() as usize, pick, after)
                &&& walk.last() == around[pick.value as int]
            }
    }
}

/// Whether the nodes of a tree and their moves come from walks, one after the
/// other, that a generator gives: each starts at the first node outside of the
/// tree, ends where it meets the tree and is taken into it without its loops.
pub open spec fn walked(
    graph: &Graph,
    root: int,
    walks: Seq<Seq<usize>>,
    in_tree: Seq<bool>,
    next: Seq<i64>,
    before: SmallRng,
    after: SmallRng,
) -> bool
    decreases walks.len(),
{
    if walks.len() == 0 {
        &&& before == after
        &&& forall|v: int| 0 <= v < in_tree.len() ==> (#[trigger] in_tree[v] <==> v == root)
    } else {
        exists|fewer: Seq<bool>, earlier: Seq<i64>, between: SmallRng|
            {
                &&& walked(graph, root, walks.drop_last(), fewer, earlier, before, between)
                &&& #[trigger] extends(
                    graph,
                    fewer,
                    earlier,
                    between,
                    walks.last(),
                    in_tree,
                    next,
                    after,
                )
            }
    }
}

/// Whether a tree is extended by one walk that a generator gives next.
pub open spec fn extends(
    graph: &Graph,
    fewer: Seq<bool>,
    earlier: Seq<i64>,
    between: SmallRng,
    walk: Seq<usize>,
    in_tree: Seq<bool>,
    next: Seq<i64>,
    after: SmallRng,
) -> bool {
    &&& sets_out(graph, fewer, walk)
    &&& walks_by(graph.neighbors@, walk, between, after)
    &&& gains(fewer, in_tree, next, erased(walk))
    &&& forall|v: int| 0 <= v < graph.order() && fewer[v] ==> (#[trigger] next[v]) == earlier[v]
}

proof fn walked_further(
    graph: &Graph,
    root: int,
    walks: Seq<Seq<usize>>,
    fewer: Seq<bool>,
    earlier: Seq<i64>,
    walk: Seq<usize>,
    in_tree: Seq<bool>,
    next: Seq<i64>,
    before: SmallRng,
    between: SmallRng,
    after: SmallRng,
)
    requires
        walked(graph, root, walks, fewer, earlier, before, between),
        extends(graph, fewer, earlier, between, walk, in_tree, next, after),
    ensures
        walked(graph, root, walks.push(walk), in_tree, next, before, after),
{
    assert(walks.push(walk).drop_last() =~= walks);
    assert(walks.push(walk).last() == walk);
}

/// Whether a walk starts at the first node outside of a tree and keeps out of
/// the tree up to its last node.
pub open spec fn sets_out(graph: &Graph, in_tree: Seq<bool>, walk: Seq<usize>) -> bool {
    &&& walk.len() > 0
    &&& walk[0] < graph.order()
    &&& !in_tree[walk[0] as int]
    &&& forall|v: int| 0 <= v < walk[0] ==> #[trigger] in_tree[v]
    &&& forall|i: int| 0 <= i < walk.len() - 1 ==> !in_tree[(#[trigger] walk[i]) as int]
}

/// Whether a walk is given up: it stands outside of the tree, on a node without
/// neighbors or after as many moves as can be counted.
pub open spec fn given_up(
    graph: &Graph,
    root: int,
    before: SmallRng,
    after: SmallRng,
) -> bool {
    exists|
        walks: Seq<Seq<usize>>,
        in_tree: Seq<bool>,
        next: Seq<i64>,
        between: SmallRng,
        walk: Seq<usize>,
    |
        {
            &&& #[trigger] walked(graph, root, walks, in_tree, next, before, between)
            &&& sets_out(graph, in_tree, walk)
            &&& !in_tree[walk.last() as int]
            &&& #[trigger] walks_by(graph.neighbors@, walk, between, after)
            &&& graph.neighbors@[walk.last() as int]@.len() == 0 || walk.len() > u64::MAX
        }
}

/// Whether a tree is what a generator gives next: from a root that it picks
/// among all nodes, the tree has the moves of walks that it gives. Where a walk
/// is given up, the tree takes the edges in their order.
pub open spec fn tree_comes(
    graph: &Graph,
    before: SmallRng,
    tree: Seq<Edge>,
    after: SmallRng,
) -> bool {
    exists|root: Pick, planted: SmallRng|
        {
            &&& #[trigger] random::picks(before, graph.order() as usize, root, planted)
            &&& {
                ||| given_up(graph, root.value as int, planted, after) && tree
                    == connectivity::taken(graph.edges@, graph.edges@.len() as int)
                ||| has_moves(graph, root.value as int, planted, tree, after)
            }
        }
}

/// Whether a tree has the moves of walks that a generator gives next, which
/// take every node into it.
pub open spec fn has_moves(
    graph: &Graph,
    root: int,
    planted: SmallRng,
    tree: Seq<Edge>,
    after: SmallRng,
) -> bool {
    exists|walks: Seq<Seq<usize>>, in_tree: Seq<bool>, next: Seq<i64>|
        {
            &&& #[trigger] walked(graph, root, walks, in_tree, next, planted, after)
            &&& forall|v: int| 0 <= v < graph.order() ==> #[trigger] in_tree[v]
            &&& forall|v: int|
                0 <= v < graph.order() && v != root ==> graph::joined(
                    tree,
                    v,
                    (#[trigger] next[v]) as int,
                )
        }
}

/// Draws spanning trees from the uniform distribution.
#[derive(Debug)]
pub struct USTSampler {
    ust_buf: USTBuffer,
}

impl USTSampler {
    /// The number of nodes that the buffers hold.
    pub closed spec fn capacity(&self) -> nat {
        if self.ust_buf.in_tree.len() < self.ust_buf.next.len() {
            self.ust_buf.in_tree@.len()
        } else {
            self.ust_buf.next@.len()
        }
    }

    /// A sampler for graphs with up to `n` nodes.
    pub fn new(n: usize) -> (r: USTSampler)
        requires
            n > 0,
        ensures
            r.capacity() == n,
    {
        USTSampler { ust_buf: USTBuffer::new(n) }
    }

    /// Walks from a node until the walk meets the tree, then takes the walk,
    /// without its loops, into the tree. Gives up, and leaves the tree as it
    /// is, where the walk stands on a node without neighbors or has used up its
    /// moves.
    fn grow(
        &mut self,
        graph: &Graph,
        start: usize,
        root: Ghost<int>,
        depth: Ghost<Seq<int>>,
        rng: &mut SmallRng,
    ) -> (r: (bool, Ghost<Seq<int>>))
        requires
            graph.sound(),
            start < graph.order(),
            old(self).ust_buf.grown(graph, root@, depth@),
        ensures
            final(self).ust_buf.in_tree.len() == old(self).ust_buf.in_tree.len(),
            final(self).ust_buf.next.len() == old(self).ust_buf.next.len(),
            final(self).ust_buf.edges == old(self).ust_buf.edges,
            r.0 ==> final(self).ust_buf.grown(graph, root@, r.1@),
            r.0 ==> final(self).ust_buf.in_tree[start as int],
            r.0 ==> forall|v: int|
                0 <= v < graph.order() && old(self).ust_buf.in_tree[v]
                    ==> #[trigger] final(self).ust_buf.in_tree[v],
            r.0 ==> exists|walk: Seq<usize>|
                {
                    &&& walk.len() > 0
                    &&& walk[0] == start
                    &&& #[trigger] split::follows(graph.neighbors@, walk)
                    &&& walks_by(graph.neighbors@, walk, *old(rng), *final(rng))
                    &&& forall|i: int|
                        0 <= i < walk.len() - 1 ==> !old(self).ust_buf.in_tree[(
                        #[trigger] walk[i]) as int]
                    &&& gains(
                        old(self).ust_buf.in_tree@,
                        final(self).ust_buf.in_tree@,
                        final(self).ust_buf.next@,
                        erased(walk),
                    )
                },
            r.0 ==> forall|v: int|
                0 <= v < graph.order() && old(self).ust_buf.in_tree[v] ==> (
                #[trigger] final(self).ust_buf.next[v]) == old(self).ust_buf.next[v],
            !r.0 ==> *final(self) == *old(self),
            !r.0 ==> exists|walk: Seq<usize>|
                {
                    &&& #[trigger] walks_by(graph.neighbors@, walk, *old(rng), *final(rng))
                    &&& walk.len() > 0
                    &&& walk[0] == start
                    &&& walk.last() < graph.order()
                    &&& forall|i: int|
                        0 <= i < walk.len() ==> !old(self).ust_buf.in_tree[(
                        #[trigger] walk[i]) as int]
                    &&& graph.neighbors@[walk.last() as int]@.len() == 0 || walk.len() > u64::MAX
                },
    {
        let ghost n = graph.order() as int;
        let ghost before = self.ust_buf;
        let mut moves: u64 = u64::MAX;
        let mut u: usize = start;
        let mut walk: Vec<usize> = Vec::new();
        walk.push(start);
        while !self.ust_buf.in_tree[u]
            invariant
                graph.sound(),
                n == graph.order(),
                u < n,
                start < n,
                before == old(self).ust_buf,
                *self == *old(self),
                before.grown(graph, root@, depth@),
                walk.len() > 0,
                walk[0] == start,
                walk@.last() == u,
                forall|i: int| 0 <= i < walk.len() ==> (#[trigger] walk[i]) < n,
                forall|i: int| 0 <= i < walk.len() - 1 ==> !before.in_tree[(
                #[trigger] walk[i]) as int],
                split::follows(graph.neighbors@, walk@),
                walks_by(graph.neighbors@, walk@, *old(rng), *rng),
                walk.len() + moves == u64::MAX + 1,
            decreases moves,
        {
            let degree: usize = graph.neighbors[u].len();
            if degree == 0 || moves == 0 {
                assert forall|i: int| 0 <= i < walk@.len() implies !old(self).ust_buf.in_tree[(
                #[trigger] walk@[i]) as int] by {
                    if i < walk@.len() - 1 {
                        assert(!before.in_tree[walk[i] as int]);
                    }
                }
                return (false, depth);
            }
            moves = moves - 1;
            let ghost between = *rng;
            let pick: Pick = random::draw_below(rng, degree);
            let w: usize = *random::chosen(&graph.neighbors[u], pick);
            let ghost shorter = walk@;
            walk.push(w);
            proof {
                assert(walk@.drop_last() =~= shorter);
                assert(walk@[walk@.len() - 2] == u);
                assert(random::picks(
                    between,
                    graph.neighbors@[u as int]@.len() as usize,
                    pick,
                    *rng,
                ));
                assert(graph.neighbors@[u as int]@.contains(w));
                assert forall|k: int| 0 <= k < walk@.len() - 1 implies graph.neighbors@[(
                #[trigger] walk@[k]) as int]@.contains(walk@[k + 1]) by {
                    if k < shorter.len() - 1 {
                        assert(walk@[k] == shorter[k] && walk@[k + 1] == shorter[k + 1]);
                    }
                }
            }
            u = w;
        }
        self.ust_buf.take_walk(&walk);
        let ghost done = self.ust_buf;
        let ghost trail = erased(walk@);
        let ghost last = (trail.len() - 1) as int;
        let ghost anchor = trail[last] as int;
        let ghost deeper = Seq::new(
            n as nat,
            |v: int|
                if before.in_tree[v] || !trail.contains(v as usize) {
                    depth@[v]
                } else {
                    depth@[anchor] + (last - trail.index_of(v as usize))
                },
        );
        proof {
            erased_leads_on(walk@, graph.neighbors@);
            assert forall|v: int| 0 <= v < n implies (#[trigger] done.next[v]) == -1 || (0
                <= done.next[v] < n && graph.neighbors[v]@.contains(done.next[v] as usize)
                && (graph.valid() ==> graph::joined(graph.edges@, v, done.next[v] as int))) by {
                if done.next[v] != before.next[v] {
                    let i = choose|i: int|
                        0 <= i < walk.len() - 1 && #[trigger] walk[i] == v && done.next[v]
                            == walk[i + 1];
                    assert(graph.neighbors@[walk@[i] as int]@.contains(walk@[i + 1]));
                }
            }
            assert forall|v: int| 0 <= v < n && before.in_tree[v] implies done.next[v]
                == before.next[v] by {
                if done.next[v] != before.next[v] {
                    let i = choose|i: int|
                        0 <= i < walk.len() - 1 && #[trigger] walk[i] == v && done.next[v]
                            == walk[i + 1];
                    assert(!before.in_tree[walk[i] as int]);
                }
            }
            assert forall|j: int| 0 <= j < trail.len() implies (#[trigger] trail[j]) < n by {
                assert(trail.contains(trail[j]));
                let m = choose|m: int| 0 <= m < walk@.len() && walk@[m] == trail[j];
                assert(walk[m] < n);
            }
            assert(depth@[anchor] >= 0) by {
                if anchor != root@ {
                    assert(before.in_tree[anchor]);
                }
            }
            assert forall|v: int| 0 <= v < n && (#[trigger] done.in_tree[v]) && v != root@ implies {
                &&& 0 <= done.next[v] < n
                &&& done.in_tree[done.next[v] as int]
                &&& deeper[v] == deeper[done.next[v] as int] + 1
                &&& deeper[v] > 0
            } by {
                if before.in_tree[v] {
                    let w = before.next[v] as int;
                    assert(before.in_tree[w]);
                    assert(done.in_tree@[w]);
                } else {
                    assert(done.in_tree@[v]);
                    let j = choose|j: int| 0 <= j < trail.len() && trail[j] == v as usize;
                    assert(j < last);
                    assert(done.next[trail[j] as int] == trail[j + 1]);
                    assert(trail.contains(trail[j]) && trail.contains(trail[j + 1]));
                    assert(trail.index_of(trail[j]) == j);
                    assert(trail.index_of(trail[j + 1]) == j + 1);
                    let w = trail[j + 1] as int;
                    assert(done.in_tree@[w]);
                    if j + 1 < last {
                        assert(!before.in_tree[trail[j + 1] as int]);
                    }
                }
            }
            assert(before.in_tree[root@]);
            assert(done.in_tree@[root@]);
            assert(done.grown(graph, root@, deeper));
            assert(trail.contains(trail[0]));
            assert(done.in_tree@[start as int]);
            assert forall|v: int| 0 <= v < n && before.in_tree[v] implies #[trigger] done.in_tree[v] by {
                assert(done.in_tree@[v]);
            }
        }
        (true, Ghost(deeper))
    }

    /// Draws a tree by walks. Where a walk gives up, the tree takes the edges in
    /// their order. A tree of a valid graph is drawn if and only if the graph is
    /// connected.
    pub fn random_spanning_tree(
        &mut self,
        graph: &Graph,
        buf: &mut SpanningTreeBuffer,
        rng: &mut SmallRng,
    ) -> (r: Result<(), SpanningTreeError>)
        requires
            graph.sound(),
            graph.order() > 0,
            old(buf).st.len() >= graph.order(),
            old(self).capacity() >= graph.order(),
        ensures
            final(buf).st.len() == old(buf).st.len(),
            final(self).capacity() == old(self).capacity(),
            r is Ok ==> connectivity::all_connected(graph.edges@, graph.order() as int),
            r is Ok ==> exists|tree: Seq<Edge>| #[trigger]
                spanning_tree::spans(tree, graph.order()) && final(buf).holds(tree)
                    && samplers::drawn_from(tree, graph.edges@) && tree_comes(
                    graph,
                    *old(rng),
                    tree,
                    *final(rng),
                ),
            r matches Err(e) ==> walks_fail(graph, e),
            graph.valid() ==> (r is Ok <==> connectivity::all_connected(
                graph.edges@,
                graph.order() as int,
            )),
            graph.order() == 1 ==> r is Ok,
    {
        buf.clear();
        self.ust_buf.clear();
        let n: usize = graph.pops.len();
        let pick: Pick = random::draw_below(rng, n);
        let ghost planted = *rng;
        assert(random::picks(*old(rng), graph.order() as usize, pick, planted));
        let root: usize = self.ust_buf.plant(graph, pick);
        let ghost mut walks: Seq<Seq<usize>> = Seq::empty();
        let mut depth: Ghost<Seq<int>> = Ghost(Seq::new(n as nat, |v: int| 0int));
        let mut i: usize = 0;
        while i < n
            invariant
                i <= n,
                n == graph.order(),
                graph.sound(),
                root < n,
                self.capacity() == old(self).capacity(),
                self.capacity() >= n,
                buf.st.len() == old(buf).st.len(),
                buf.st.len() >= n,
                buf.holds(Seq::empty()),
                self.ust_buf.edges@ == Seq::<usize>::empty(),
                self.ust_buf.grown(graph, root as int, depth@),
                forall|v: int| 0 <= v < i ==> #[trigger] self.ust_buf.in_tree[v],
                n == 1 ==> root == 0,
                root == pick.value,
                random::picks(*old(rng), graph.order() as usize, pick, planted),
                walked(
                    graph,
                    root as int,
                    walks,
                    self.ust_buf.in_tree@,
                    self.ust_buf.next@,
                    planted,
                    *rng,
                ),
            decreases n - i,
        {
            if !self.ust_buf.in_tree[i] {
                let ghost fewer = self.ust_buf.in_tree@;
                let ghost earlier = self.ust_buf.next@;
                let ghost between = *rng;
                let (grown, deeper): (bool, Ghost<Seq<int>>) = self.grow(
                    graph,
                    i,
                    Ghost(root as int),
                    depth,
                    rng,
                );
                if !grown {
                    proof {
                        samplers::taken_is_drawn_from(graph.edges@, graph.edges@.len() as int);
                        let walk = choose|walk: Seq<usize>|
                            {
                                &&& #[trigger] walks_by(graph.neighbors@, walk, between, *rng)
                                &&& walk.len() > 0
                                &&& walk[0] == i
                                &&& walk.last() < graph.order()
                                &&& forall|i: int|
                                    0 <= i < walk.len() ==> !fewer[(#[trigger] walk[i]) as int]
                                &&& graph.neighbors@[walk.last() as int]@.len() == 0 || walk.len()
                                    > u64::MAX
                            };
                        assert(sets_out(graph, fewer, walk));
                        assert(given_up(graph, root as int, planted, *rng));
                        assert(tree_comes(
                            graph,
                            *old(rng),
                            connectivity::taken(graph.edges@, graph.edges@.len() as int),
                            *rng,
                        ));
                    }
                    return greedy_spanning_tree(graph, buf, &graph.edges);
                }
                depth = deeper;
                proof {
                    let walk = choose|walk: Seq<usize>|
                        {
                            &&& walk.len() > 0
                            &&& walk[0] == i
                            &&& #[trigger] split::follows(graph.neighbors@, walk)
                            &&& walks_by(graph.neighbors@, walk, between, *rng)
                            &&& forall|i: int|
                                0 <= i < walk.len() - 1 ==> !fewer[(#[trigger] walk[i]) as int]
                            &&& gains(
                                fewer,
                                self.ust_buf.in_tree@,
                                self.ust_buf.next@,
                                erased(walk),
                            )
                        };
                    assert(sets_out(graph, fewer, walk));
                    assert(extends(
                        graph,
                        fewer,
                        earlier,
                        between,
                        walk,
                        self.ust_buf.in_tree@,
                        self.ust_buf.next@,
                        *rng,
                    ));
                    walked_further(
                        graph,
                        root as int,
                        walks,
                        fewer,
                        earlier,
                        walk,
                        self.ust_buf.in_tree@,
                        self.ust_buf.next@,
                        planted,
                        between,
                        *rng,
                    );
                    walks = walks.push(walk);
                }
            }
            i += 1;
        }
        assert(walked(
            graph,
            root as int,
            walks,
            self.ust_buf.in_tree@,
            self.ust_buf.next@,
            planted,
            *rng,
        ));
        let ghost full = self.ust_buf;
        let ghost mut tree: Seq<Edge> = Seq::empty();
        let mut v: usize = 0;
        while v < n
            invariant
                v <= n,
                n == graph.order(),
                graph.sound(),
                root < n,
                self.capacity() == old(self).capacity(),
                self.ust_buf.in_tree == full.in_tree,
                self.ust_buf.next == full.next,
                full.grown(graph, root as int, depth@),
                forall|u: int| 0 <= u < n ==> #[trigger] full.in_tree[u],
                buf.st.len() == old(buf).st.len(),
                buf.st.len() >= n,
                buf.holds(tree),
                samplers::drawn_from(tree, graph.edges@),
                self.ust_buf.edges.len() == tree.len(),
                tree.len() <= others_below(root as int, v as int),
                tree.len() < others_below(root as int, v as int) ==> lists_no_edge(graph),
                graph.valid() ==> tree.len() == others_below(root as int, v as int),
                tree.len() == others_below(root as int, v as int) ==> forall|u: int|
                    0 <= u < v && u != root ==> graph::joined(
                        tree,
                        u,
                        (#[trigger] full.next[u]) as int,
                    ),
            decreases n - v,
        {
            let after: i64 = self.ust_buf.next[v];
            proof {
                assert(full.in_tree[v as int]);
            }
            if after >= 0 {
                let w: usize = after as usize;
                let (low, high): (usize, usize) = if v < w {
                    (v, w)
                } else {
                    (w, v)
                };
                proof {
                    if graph.valid() {
                        assert(graph::joined(graph.edges@, v as int, w as int));
                        let e = choose|e: int|
                            0 <= e < graph.edges@.len() && (((#[trigger] graph.edges@[e]).0 == v
                                && graph.edges@[e].1 == w) || (graph.edges@[e].0 == w
                                && graph.edges@[e].1 == v));
                        assert(graph.edges@[e].0 < graph.edges@[e].1);
                        assert(graph.edges@[e] == Edge(low, high));
                        assert(graph.edges@.contains(Edge(low, high)));
                    }
                }
                if let Some(place) = graph.find_edge(low, high) {
                    self.ust_buf.edges.push(place);
                    let ghost shorter = tree;
                    assert(graph.edges@[place as int].0 < graph.edges@[place as int].1);
                    buf.add(graph.edges[place], Ghost(tree));
                    proof {
                        tree = tree.push(Edge(low, high));
                        assert(tree[shorter.len() as int] == Edge(low, high));
                        if shorter.len() == others_below(root as int, v as int) {
                            assert forall|u: int| 0 <= u <= v && u != root implies graph::joined(
                                tree,
                                u,
                                (#[trigger] full.next[u]) as int,
                            ) by {
                                if u < v {
                                    assert(graph::joined(shorter, u, full.next[u] as int));
                                    let x = full.next[u] as int;
                                    let e = choose|e: int|
                                        0 <= e < shorter.len() && (((#[trigger] shorter[e]).0 == u
                                            && shorter[e].1 == x) || (shorter[e].0 == x
                                            && shorter[e].1 == u));
                                    assert(tree[e] == shorter[e]);
                                } else {
                                    assert(tree[shorter.len() as int] == Edge(low, high));
                                }
                            }
                        }
                        assert forall|j: int| 0 <= j < tree.len() implies graph.edges@.contains(
                            #[trigger] tree[j],
                        ) by {
                            if j < shorter.len() {
                                assert(tree[j] == shorter[j]);
                            }
                        }
                    }
                } else {
                    proof {
                        assert(graph.neighbors[v as int]@.contains(w));
                        if graph::joined(graph.edges@, v as int, w as int) {
                            let e = choose|e: int|
                                0 <= e < graph.edges@.len() && (((#[trigger] graph.edges@[e]).0
                                    == v && graph.edges@[e].1 == w) || (graph.edges@[e].0 == w
                                    && graph.edges@[e].1 == v));
                            assert(graph.edges@[e].0 < graph.edges@[e].1);
                            assert(graph.edges@[e] == Edge(low, high));
                        }
                        assert(lists_no_edge(graph));
                    }
                }
            }
            v += 1;
        }
        if self.ust_buf.edges.len() != n - 1 {
            return Err(
                SpanningTreeError::Disconnected {
                    node_count: n,
                    graph_edge_count: graph.edges.len(),
                    expected_tree_edges: n - 1,
                    actual_tree_edges: self.ust_buf.edges.len(),
                },
            );
        }
        proof {
            assert forall|u: int, w: int| 0 <= u < n && 0 <= w < n implies #[trigger]
                connectivity::connected(tree, u, w) by {
                reaches_the_root(full, graph, root as int, depth@, tree, u);
                reaches_the_root(full, graph, root as int, depth@, tree, w);
                connectivity::connected_both_ways(tree, w, root as int);
                connectivity::connected_in_turn(tree, u, root as int, w);
            }
            assert(spanning_tree::spans(tree, graph.order()));
            assert forall|e: Edge| #[trigger] tree.contains(e) implies graph.edges@.contains(e) by {
                let j = choose|j: int| 0 <= j < tree.len() && tree[j] == e;
                assert(graph.edges@.contains(tree[j]));
            }
            samplers::same_edges_connect_alike(tree, graph.edges@, n as int);
            assert(has_moves(graph, root as int, planted, tree, *rng)) by {
                assert forall|v: int| 0 <= v < graph.order() && v != root implies graph::joined(
                    tree,
                    v,
                    (#[trigger] full.next@[v]) as int,
                ) by {
                    assert(graph::joined(tree, v, full.next[v] as int));
                }
                assert forall|v: int| 0 <= v < graph.order() implies #[trigger] full.in_tree@[v] by {
                    assert(full.in_tree[v]);
                }
            }
            assert(tree_comes(graph, *old(rng), tree, *rng));
        }
        Ok(())
    }
}

/// The number of nodes below `v` other than the root.
spec fn others_below(root: int, v: int) -> int {
    if v > root {
        v - 1
    } else {
        v
    }
}

/// Every node's moves lead to the root along the tree.
proof fn reaches_the_root(
    buf: USTBuffer,
    graph: &Graph,
    root: int,
    depth: Seq<int>,
    tree: Seq<Edge>,
    u: int,
)
    requires
        buf.grown(graph, root, depth),
        0 <= u < graph.order(),
        forall|v: int| 0 <= v < graph.order() ==> #[trigger] buf.in_tree[v],
        forall|v: int|
            0 <= v < graph.order() && v != root ==> graph::joined(
                tree,
                v,
                (#[trigger] buf.next[v]) as int,
            ),
    ensures
        connectivity::connected(tree, u, root),
    decreases depth[u],
{
    if u == root {
        connectivity::connected_to_itself(tree, u);
    } else {
        assert(buf.in_tree[u]);
        let v = buf.next[u] as int;
        if v == root {
            assert(depth[v] == 0);
        } else {
            assert(buf.in_tree[v]);
        }
        reaches_the_root(buf, graph, root, depth, tree, v);
        connectivity::joined_is_connected(tree, u, v);
        connectivity::connected_in_turn(tree, u, v, root);
    }
}

impl SpanningTreeSampler for USTSampler {
    open spec fn ready(&self, graph: &Graph, parent: &Graph, raw_nodes: Seq<usize>) -> bool {
        self.capacity() >= graph.order()
    }

    open spec fn draws(
        &self,
        graph: &Graph,
        parent: &Graph,
        raw_nodes: Seq<usize>,
        tree: Seq<Edge>,
    ) -> bool {
        spanning_tree::spans(tree, graph.order()) && samplers::drawn_from(tree, graph.edges@)
    }

    open spec fn comes(
        &self,
        graph: &Graph,
        parent: &Graph,
        raw_nodes: Seq<usize>,
        before: SmallRng,
        tree: Seq<Edge>,
        after: SmallRng,
    ) -> bool {
        tree_comes(graph, before, tree, after)
    }

    open spec fn fails_with(
        &self,
        graph: &Graph,
        parent: &Graph,
        raw_nodes: Seq<usize>,
        error: SpanningTreeError,
    ) -> bool {
        walks_fail(graph, error)
    }

    fn random_spanning_tree_with_parent(
        &mut self,
        graph: &Graph,
        parent: &Graph,
        raw_nodes: &Vec<usize>,
        buf: &mut SpanningTreeBuffer,
        rng: &mut SmallRng,
    ) -> (r: Result<(), SpanningTreeError>)
        ensures
            final(self).capacity() == old(self).capacity(),
            r is Ok ==> connectivity::all_connected(graph.edges@, graph.order() as int),
            graph.valid() ==> (r is Ok <==> connectivity::all_connected(
                graph.edges@,
                graph.order() as int,
            )),
            graph.order() == 1 ==> r is Ok,
    {
        self.random_spanning_tree(graph, buf, rng)
    }
}

} // verus!
