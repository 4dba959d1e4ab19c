//! Samplers of random spanning trees.

use rand::rngs::SmallRng;
use vstd::prelude::*;
use crate::graph::{Edge, Graph};
use crate::spanning_tree::{greedy_spanning_tree, SpanningTreeBuffer, SpanningTreeError};
use crate::{connectivity, graph, random, spanning_tree, vectors};

verus! {

/// Draws random spanning trees.
pub trait SpanningTreeSampler {
    /// Whether trees of a graph can be drawn.
    spec fn ready(&self, graph: &Graph, parent: &Graph, raw_nodes: Seq<usize>) -> bool;

    /// Whether a spanning tree of a graph may be drawn.
    spec fn draws(
        &self,
        graph: &Graph,
        parent: &Graph,
        raw_nodes: Seq<usize>,
        tree: Seq<Edge>,
    ) -> bool;

    /// Whether a spanning tree of a graph is what a generator gives next.
    spec fn comes(
        &self,
        graph: &Graph,
        parent: &Graph,
        raw_nodes: Seq<usize>,
        before: SmallRng,
        tree: Seq<Edge>,
        after: SmallRng,
    ) -> bool;

    /// Whether a draw may fail with an error.
    spec fn fails_with(
        &self,
        graph: &Graph,
        parent: &Graph,
        raw_nodes: Seq<usize>,
        error: SpanningTreeError,
    ) -> bool;

    /// Draws a spanning tree of `graph` into `buf`. Node attributes are read
    /// from `parent`, where `raw_nodes` tells the place of each node. A drawn
    /// tree spans the graph and its edges are edges of the graph.
    fn random_spanning_tree_with_parent(
        &mut self,
        graph: &Graph,
        parent: &Graph,
        raw_nodes: &Vec<usize>,
        buf: &mut SpanningTreeBuffer,
        rng: &mut SmallRng,
    ) -> (r: Result<(), SpanningTreeError>)
        requires
            old(self).ready(graph, parent, raw_nodes@),
            graph.sound(),
            graph.order() > 0,
            old(buf).st.len() >= graph.order(),
        ensures
            final(buf).st.len() == old(buf).st.len(),
            r is Ok ==> exists|tree: Seq<Edge>|
                {
                    &&& #[trigger] spanning_tree::spans(tree, graph.order())
                    &&& final(buf).holds(tree)
                    &&& drawn_from(tree, graph.edges@)
                    &&& old(self).draws(graph, parent, raw_nodes@, tree)
                    &&& old(self).comes(
                        graph,
                        parent,
                        raw_nodes@,
                        *old(rng),
                        tree,
                        *final(rng),
                    )
                },
            r matches Err(e) ==> old(self).fails_with(graph, parent, raw_nodes@, e),
    ;
}

/// Whether the edges of a tree are among the given ones.
pub open spec fn drawn_from(tree: Seq<Edge>, edges: Seq<Edge>) -> bool {
    forall|i: int| 0 <= i < tree.len() ==> edges.contains(#[trigger] tree[i])
}

pub proof fn taken_is_drawn_from(order: Seq<Edge>, k: int)
    requires
        0 <= k <= order.len(),
    ensures
        drawn_from(connectivity::taken(order, k), order),
    decreases k,
{
    if k > 0 {
        taken_is_drawn_from(order, k - 1);
        assert(order.contains(order[k - 1]));
    }
}

/// Lists with the same edges connect alike.
pub proof fn same_edges_connect_alike(a: Seq<Edge>, b: Seq<Edge>, n: int)
    requires
        forall|e: Edge| #[trigger] a.contains(e) ==> b.contains(e),
        connectivity::all_connected(a, n),
    ensures
        connectivity::all_connected(b, n),
{
    assert forall|x: int, y: int| #[trigger] graph::joined(a, x, y) implies connectivity::connected(
        b,
        x,
        y,
    ) by {
        let i = choose|i: int|
            0 <= i < a.len() && (((#[trigger] a[i]).0 == x && a[i].1 == y) || (a[i].0 == y
                && a[i].1 == x));
        assert(a.contains(a[i]));
        let j = choose|j: int| 0 <= j < b.len() && b[j] == a[i];
        assert(b[j].0 == b[j].0);
        connectivity::joined_is_connected(b, x, y);
    }
    assert forall|u: int, v: int| 0 <= u < n && 0 <= v < n implies #[trigger] connectivity::connected(
        b,
        u,
        v,
    ) by {
        assert(connectivity::connected(a, u, v));
        connectivity::connected_through_more(a, b, u, v);
    }
}

/// Samples trees by taking edges in a random order.
#[derive(Debug)]
pub struct RMSTSampler {
    edges_by_weight: Vec<Edge>,
}

impl RMSTSampler {
    /// A sampler for graphs with about `n` nodes.
    pub fn new(n: usize) -> (r: RMSTSampler)
        requires
            8 * n <= usize::MAX,
        ensures
            r.buffered() == Seq::<Edge>::empty(),
    {
        RMSTSampler { edges_by_weight: Vec::with_capacity(8 * n) }
    }

    /// The order in which edges were last taken.
    pub closed spec fn buffered(&self) -> Seq<Edge> {
        self.edges_by_weight@
    }

    /// Draws a tree: the edges are taken greedily in a random order.
    pub fn random_spanning_tree(
        &mut self,
        graph: &Graph,
        buf: &mut SpanningTreeBuffer,
        rng: &mut SmallRng,
    ) -> (r: Result<(), SpanningTreeError>)
        requires
            graph.sound(),
            graph.order() > 0,
            old(buf).st.len() >= graph.order(),
        ensures
            final(buf).st.len() == old(buf).st.len(),
            final(self).buffered().to_multiset() == graph.edges@.to_multiset(),
            random::orders(*old(rng), graph.edges@, final(self).buffered(), *final(rng)),
            final(buf).holds(
                connectivity::taken(final(self).buffered(), final(self).buffered().len() as int),
            ),
            r is Ok <==> connectivity::all_connected(graph.edges@, graph.order() as int),
            r is Ok ==> spanning_tree::spans(
                connectivity::taken(final(self).buffered(), final(self).buffered().len() as int),
                graph.order(),
            ) && drawn_from(
                connectivity::taken(final(self).buffered(), final(self).buffered().len() as int),
                graph.edges@,
            ),
            r matches Err(e) ==> spanning_tree::lacks_edges(graph, e),
    {
        broadcast use vstd::seq_lib::group_to_multiset_ensures;

        self.edges_by_weight = vectors::copied(&graph.edges);
        random::draw_order(&mut self.edges_by_weight, rng);
        let ghost order = self.edges_by_weight@;
        proof {
            assert forall|e: Edge| order.contains(e) <==> graph.edges@.contains(e) by {
                assert(order.to_multiset().count(e) == graph.edges@.to_multiset().count(e));
            }
            assert forall|i: int| 0 <= i < order.len() implies (#[trigger] order[i]).0
                < order[i].1 < graph.order() by {
                assert(order.contains(order[i]));
                let j = choose|j: int| 0 <= j < graph.edges@.len() && graph.edges@[j] == order[i];
                assert(graph.edges@[j].0 < graph.edges@[j].1);
            }
            taken_is_drawn_from(order, order.len() as int);
            if connectivity::all_connected(order, graph.order() as int) {
                same_edges_connect_alike(order, graph.edges@, graph.order() as int);
            }
            if connectivity::all_connected(graph.edges@, graph.order() as int) {
                same_edges_connect_alike(graph.edges@, order, graph.order() as int);
            }
        }
        greedy_spanning_tree(graph, buf, &self.edges_by_weight)
    }
}

/// Whether a tree takes the edges in some order, each that joins parts which
/// the taken ones leave apart.
pub open spec fn taken_in_some_order(edges: Seq<Edge>, tree: Seq<Edge>) -> bool {
    exists|order: Seq<Edge>|
        order.to_multiset() == edges.to_multiset() && tree == #[trigger] connectivity::taken(
            order,
            order.len() as int,
        )
}

impl SpanningTreeSampler for RMSTSampler {
    open spec fn ready(&self, graph: &Graph, parent: &Graph, raw_nodes: Seq<usize>) -> bool {
        true
    }

    open spec fn draws(
        &self,
        graph: &Graph,
        parent: &Graph,
        raw_nodes: Seq<usize>,
        tree: Seq<Edge>,
    ) -> bool {
        taken_in_some_order(graph.edges@, tree)
    }

    open spec fn comes(
        &self,
        graph: &Graph,
        parent: &Graph,
        raw_nodes: Seq<usize>,
        before: SmallRng,
        tree: Seq<Edge>,
        after: SmallRng,
    ) -> bool {
        exists|order: Seq<Edge>| #[trigger]
            random::orders(before, graph.edges@, order, after) && tree == connectivity::taken(
                order,
                order.len() as int,
            )
    }

    open spec fn fails_with(
        &self,
        graph: &Graph,
        parent: &Graph,
        raw_nodes: Seq<usize>,
        error: SpanningTreeError,
    ) -> bool {
        &&& spanning_tree::lacks_edges(graph, error)
        &&& !connectivity::all_connected(graph.edges@, graph.order() as int)
    }

    fn random_spanning_tree_with_parent(
        &mut self,
        graph: &Graph,
        parent: &Graph,
        raw_nodes: &Vec<usize>,
        buf: &mut SpanningTreeBuffer,
        rng: &mut SmallRng,
    ) -> (r: Result<(), SpanningTreeError>)
        ensures
            r is Ok <==> connectivity::all_connected(graph.edges@, graph.order() as int),
    {
        let r: Result<(), SpanningTreeError> = self.random_spanning_tree(graph, buf, rng);
        assert(self.draws(
            graph,
            parent,
            raw_nodes@,
            connectivity::taken(self.buffered(), self.buffered().len() as int),
        ));
        assert(random::orders(*old(rng), graph.edges@, self.buffered(), *rng));
        assert(old(self).comes(
            graph,
            parent,
            raw_nodes@,
            *old(rng),
            connectivity::taken(self.buffered(), self.buffered().len() as int),
            *rng,
        ));
        r
    }
}

} // verus!
