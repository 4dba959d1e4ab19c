//! Contiguity of districts.

use vstd::prelude::*;
use crate::graph::{Edge, Graph};
use crate::recom::merge::SubgraphBuffer;
use crate::recom::proposal::RecomProposal;
use crate::recom::split::Rooted;
use crate::recom::{merge, split};
use crate::{connectivity, graph};

verus! {

/// The edges whose nodes are both listed.
pub open spec fn inner_edges(edges: Seq<Edge>, nodes: Seq<usize>) -> Seq<Edge> {
    edges.filter(|e: Edge| nodes.contains(e.0) && nodes.contains(e.1))
}

/// Whether the edges among the listed nodes connect all of them.
pub open spec fn contiguous(edges: Seq<Edge>, nodes: Seq<usize>) -> bool {
    forall|x: usize, y: usize|
        #![trigger nodes.contains(x), nodes.contains(y)]
        nodes.contains(x) && nodes.contains(y) ==> connectivity::connected(
            inner_edges(edges, nodes),
            x as int,
            y as int,
        )
}

proof fn inner_edges_join(edges: Seq<Edge>, nodes: Seq<usize>, x: usize, y: usize)
    requires
        graph::joined(edges, x as int, y as int),
        nodes.contains(x),
        nodes.contains(y),
    ensures
        connectivity::connected(inner_edges(edges, nodes), x as int, y as int),
{
    let pred = |e: Edge| nodes.contains(e.0) && nodes.contains(e.1);
    let inner = inner_edges(edges, nodes);
    let e = choose|e: int|
        0 <= e < edges.len() && (((#[trigger] edges[e]).0 == x && edges[e].1 == y) || (edges[e].0
            == y && edges[e].1 == x));
    edges.lemma_filter_contains(pred, e);
    assert(inner.contains(edges[e]));
    let f = choose|f: int| 0 <= f < inner.len() && inner[f] == edges[e];
    assert(inner[f].0 == edges[e].0);
    connectivity::joined_is_connected(inner, x as int, y as int);
}

/// The node of the whole graph at a place of a rooted tree.
spec fn raw_node(sub: &SubgraphBuffer, tree: &Rooted, k: int) -> usize {
    sub.raw_nodes[tree.order[k] as int]
}

/// Both districts of a cut are contiguous: cutting a spanning tree of a merged
/// subgraph leaves each part connected.
pub proof fn cut_districts_are_contiguous(
    whole: &Graph,
    sub: &SubgraphBuffer,
    st: Seq<Vec<usize>>,
    tree: &Rooted,
    proposal: &RecomProposal,
    v: int,
)
    requires
        merge::induced(sub, whole),
        sub.raw_nodes.len() == sub.graph.order(),
        tree.roots(st, sub.graph.order()),
        forall|u: int, w: usize|
            0 <= u < sub.graph.order() && #[trigger] st[u]@.contains(w) ==> w
                < sub.graph.order() && graph::joined(sub.graph.edges@, u, w as int),
        split::cuts_at(sub, tree, proposal, v),
        0 < v < sub.graph.order(),
    ensures
        contiguous(whole.edges@, proposal.a_nodes@),
        contiguous(whole.edges@, proposal.b_nodes@),
{
    let n = sub.graph.order() as int;
    let a = proposal.a_nodes@;
    let b = proposal.b_nodes@;
    let inner_a = inner_edges(whole.edges@, a);
    let inner_b = inner_edges(whole.edges@, b);
    assert forall|x: usize, y: usize|
        #![trigger a.contains(x), a.contains(y)]
        a.contains(x) && a.contains(y) implies connectivity::connected(
        inner_a,
        x as int,
        y as int,
    ) by {
        let i = choose|k: int|
            0 <= k < n && split::hangs_from(tree.parent@, k, v)
                && #[trigger] sub.raw_nodes[tree.order[k] as int] == x;
        let j = choose|k: int|
            0 <= k < n && split::hangs_from(tree.parent@, k, v)
                && #[trigger] sub.raw_nodes[tree.order[k] as int] == y;
        hanging_part_is_linked(whole, sub, st, tree, proposal, v, i);
        hanging_part_is_linked(whole, sub, st, tree, proposal, v, j);
        connectivity::connected_both_ways(inner_a, y as int, raw_node(sub, tree, v) as int);
        connectivity::connected_in_turn(
            inner_a,
            x as int,
            raw_node(sub, tree, v) as int,
            y as int,
        );
    }
    assert forall|x: usize, y: usize|
        #![trigger b.contains(x), b.contains(y)]
        b.contains(x) && b.contains(y) implies connectivity::connected(
        inner_b,
        x as int,
        y as int,
    ) by {
        let i = choose|k: int|
            0 <= k < n && !split::hangs_from(tree.parent@, k, v)
                && #[trigger] sub.raw_nodes[tree.order[k] as int] == x;
        let j = choose|k: int|
            0 <= k < n && !split::hangs_from(tree.parent@, k, v)
                && #[trigger] sub.raw_nodes[tree.order[k] as int] == y;
        other_part_is_linked(whole, sub, st, tree, proposal, v, i);
        other_part_is_linked(whole, sub, st, tree, proposal, v, j);
        connectivity::connected_both_ways(inner_b, y as int, raw_node(sub, tree, 0) as int);
        connectivity::connected_in_turn(
            inner_b,
            x as int,
            raw_node(sub, tree, 0) as int,
            y as int,
        );
    }
}

proof fn child_is_joined(
    whole: &Graph,
    sub: &SubgraphBuffer,
    st: Seq<Vec<usize>>,
    tree: &Rooted,
    k: int,
)
    requires
        merge::induced(sub, whole),
        sub.raw_nodes.len() == sub.graph.order(),
        tree.roots(st, sub.graph.order()),
        forall|u: int, w: usize|
            0 <= u < sub.graph.order() && #[trigger] st[u]@.contains(w) ==> w
                < sub.graph.order() && graph::joined(sub.graph.edges@, u, w as int),
        0 < k < sub.graph.order(),
    ensures
        0 <= tree.parent[k] < k,
        graph::joined(
            whole.edges@,
            raw_node(sub, tree, k) as int,
            raw_node(sub, tree, tree.parent[k] as int) as int,
        ),
{
    let p = tree.parent[k] as int;
    assert(tree.parent@[k] < k);
    let x = tree.order[p];
    let y = tree.order[k];
    assert(st[tree.order[tree.parent[k] as int] as int]@.contains(tree.order[k]));
    assert(graph::joined(sub.graph.edges@, x as int, y as int));
    assert(graph::joined(
        whole.edges@,
        sub.raw_nodes[x as int] as int,
        sub.raw_nodes[y as int] as int,
    ));
    let u = sub.raw_nodes[x as int] as int;
    let w = sub.raw_nodes[y as int] as int;
    let e = choose|e: int|
        0 <= e < whole.edges@.len() && (((#[trigger] whole.edges@[e]).0 == u && whole.edges@[e].1
            == w) || (whole.edges@[e].0 == w && whole.edges@[e].1 == u));
    assert(whole.edges@[e].0 == whole.edges@[e].0);
}

proof fn hanging_part_is_linked(
    whole: &Graph,
    sub: &SubgraphBuffer,
    st: Seq<Vec<usize>>,
    tree: &Rooted,
    proposal: &RecomProposal,
    v: int,
    k: int,
)
    requires
        merge::induced(sub, whole),
        sub.raw_nodes.len() == sub.graph.order(),
        tree.roots(st, sub.graph.order()),
        forall|u: int, w: usize|
            0 <= u < sub.graph.order() && #[trigger] st[u]@.contains(w) ==> w
                < sub.graph.order() && graph::joined(sub.graph.edges@, u, w as int),
        split::cuts_at(sub, tree, proposal, v),
        0 < v < sub.graph.order(),
        0 <= k < sub.graph.order(),
        split::hangs_from(tree.parent@, k, v),
    ensures
        connectivity::connected(
            inner_edges(whole.edges@, proposal.a_nodes@),
            raw_node(sub, tree, k) as int,
            raw_node(sub, tree, v) as int,
        ),
    decreases k,
{
    let inner = inner_edges(whole.edges@, proposal.a_nodes@);
    if k == v {
        connectivity::connected_to_itself(inner, raw_node(sub, tree, v) as int);
    } else {
        let p = tree.parent[k] as int;
        child_is_joined(whole, sub, st, tree, k);
        assert(split::hangs_from(tree.parent@, p, v));
        hanging_part_is_linked(whole, sub, st, tree, proposal, v, p);
        assert(proposal.a_nodes@.contains(sub.raw_nodes[tree.order[k] as int]));
        assert(proposal.a_nodes@.contains(sub.raw_nodes[tree.order[p] as int]));
        inner_edges_join(
            whole.edges@,
            proposal.a_nodes@,
            raw_node(sub, tree, k),
            raw_node(sub, tree, p),
        );
        connectivity::connected_in_turn(
            inner,
            raw_node(sub, tree, k) as int,
            raw_node(sub, tree, p) as int,
            raw_node(sub, tree, v) as int,
        );
    }
}

proof fn other_part_is_linked(
    whole: &Graph,
    sub: &SubgraphBuffer,
    st: Seq<Vec<usize>>,
    tree: &Rooted,
    proposal: &RecomProposal,
    v: int,
    k: int,
)
    requires
        merge::induced(sub, whole),
        sub.raw_nodes.len() == sub.graph.order(),
        tree.roots(st, sub.graph.order()),
        forall|u: int, w: usize|
            0 <= u < sub.graph.order() && #[trigger] st[u]@.contains(w) ==> w
                < sub.graph.order() && graph::joined(sub.graph.edges@, u, w as int),
        split::cuts_at(sub, tree, proposal, v),
        0 < v < sub.graph.order(),
        0 <= k < sub.graph.order(),
        !split::hangs_from(tree.parent@, k, v),
    ensures
        connectivity::connected(
            inner_edges(whole.edges@, proposal.b_nodes@),
            raw_node(sub, tree, k) as int,
            raw_node(sub, tree, 0) as int,
        ),
    decreases k,
{
    let inner = inner_edges(whole.edges@, proposal.b_nodes@);
    if k == 0 {
        connectivity::connected_to_itself(inner, raw_node(sub, tree, 0) as int);
    } else {
        let p = tree.parent[k] as int;
        child_is_joined(whole, sub, st, tree, k);
        assert(!split::hangs_from(tree.parent@, p, v));
        other_part_is_linked(whole, sub, st, tree, proposal, v, p);
        assert(sub.raw_nodes[tree.order[k] as int] == raw_node(sub, tree, k));
        assert(sub.raw_nodes[tree.order[p] as int] == raw_node(sub, tree, p));
        assert(proposal.b_nodes@.contains(sub.raw_nodes[tree.order[k] as int]));
        assert(proposal.b_nodes@.contains(sub.raw_nodes[tree.order[p] as int]));
        inner_edges_join(
            whole.edges@,
            proposal.b_nodes@,
            raw_node(sub, tree, k),
            raw_node(sub, tree, p),
        );
        connectivity::connected_in_turn(
            inner,
            raw_node(sub, tree, k) as int,
            raw_node(sub, tree, p) as int,
            raw_node(sub, tree, 0) as int,
        );
    }
}

} // verus!
