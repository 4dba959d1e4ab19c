//! Spanning trees of graphs.

use petgraph::unionfind::UnionFind;
use rand::rngs::SmallRng;
use vstd::prelude::*;
use crate::graph::{Edge, Graph};
use crate::{connectivity, graph, random, text, vectors};

verus! {

/// The disjoint sets of `petgraph::unionfind::UnionFind`, kept behind the
/// functions below.
#[verifier::external_type_specification]
#[verifier::external_body]
#[verifier::reject_recursive_types(K)]
pub struct ExUnionFind<K>(UnionFind<K>);

/// A label for each element of the disjoint sets; two elements share a label
/// exactly where they share a set.
pub uninterp spec fn set_labels(sets: UnionFind<usize>) -> Seq<int>;

/// Calls `UnionFind::new`: each of the `n` elements is a set of its own.
#[verifier::external_body]
fn new_sets(n: usize) -> (sets: UnionFind<usize>)
    ensures
        set_labels(sets).len() == n,
        forall|i: int, j: int|
            0 <= i < j < n ==> #[trigger] set_labels(sets)[i] != #[trigger] set_labels(sets)[j],
{
    UnionFind::<usize>::new(n)
}

/// Calls `UnionFind::equiv`: whether two elements share a set.
#[verifier::external_body]
fn same_set(sets: &UnionFind<usize>, x: usize, y: usize) -> (r: bool)
    requires
        x < set_labels(*sets).len(),
        y < set_labels(*sets).len(),
    ensures
        r == (set_labels(*sets)[x as int] == set_labels(*sets)[y as int]),
{
    sets.equiv(x, y)
}

/// Calls `UnionFind::union`: the sets of two elements become one, the others
/// stay; tells whether they were apart before.
#[verifier::external_body]
fn unite(sets: &mut UnionFind<usize>, x: usize, y: usize) -> (r: bool)
    requires
        x < set_labels(*old(sets)).len(),
        y < set_labels(*old(sets)).len(),
    ensures
        r == (set_labels(*old(sets))[x as int] != set_labels(*old(sets))[y as int]),
        connectivity::merged(set_labels(*old(sets)), set_labels(*final(sets)), x as int, y as int),
{
    sets.union(x, y)
}

/// Why a spanning tree could not be built.
#[derive(Clone, Copy, Debug, PartialEq, Eq, Structural)]
pub enum SpanningTreeError {
    /// The edges do not connect the nodes.
    Disconnected {
        node_count: usize,
        graph_edge_count: usize,
        expected_tree_edges: usize,
        actual_tree_edges: usize,
    },
    /// An edge weight is not a number.
    Unordered,
}

impl SpanningTreeError {
    /// The message of an error.
    pub open spec fn text(self) -> Seq<char> {
        match self {
            SpanningTreeError::Disconnected {
                node_count,
                graph_edge_count,
                expected_tree_edges,
                actual_tree_edges,
            } => "Cannot construct a spanning tree of a disconnected graph with "@ + text::decimal(
                node_count as nat,
            ) + " nodes and "@ + text::decimal(graph_edge_count as nat) + " edges: found "@
                + text::decimal(actual_tree_edges as nat) + " of "@ + text::decimal(
                expected_tree_edges as nat,
            ) + " required tree edges."@,
            SpanningTreeError::Unordered =>
                "Cannot construct a spanning tree: an edge weight is not a number."@,
        }
    }

    /// The message of an error.
    pub fn message(&self) -> (r: String)
        ensures
            r@ == self.text(),
    {
        match *self {
            SpanningTreeError::Disconnected {
                node_count,
                graph_edge_count,
                expected_tree_edges,
                actual_tree_edges,
            } => {
                let mut out: String =
                    "Cannot construct a spanning tree of a disconnected graph with ".to_string();
                text::push_number(&mut out, node_count as u64);
                out.append(" nodes and ");
                text::push_number(&mut out, graph_edge_count as u64);
                out.append(" edges: found ");
                text::push_number(&mut out, actual_tree_edges as u64);
                out.append(" of ");
                text::push_number(&mut out, expected_tree_edges as u64);
                out.append(" required tree edges.");
                out
            },
            SpanningTreeError::Unordered =>
                "Cannot construct a spanning tree: an edge weight is not a number.".to_string(),
        }
    }
}

/// A tree as the list of tree neighbors of each node.
#[derive(Debug)]
pub struct SpanningTreeBuffer {
    pub st: Vec<Vec<usize>>,
}

/// The tree neighbors of a node, in the order of the tree's edges.
pub open spec fn tree_neighbors(tree: Seq<Edge>, v: int) -> Seq<usize>
    decreases tree.len(),
{
    if tree.len() == 0 {
        Seq::empty()
    } else {
        let e = tree.last();
        let before = tree_neighbors(tree.drop_last(), v);
        let low = if e.0 == v {
            before.push(e.1)
        } else {
            before
        };
        if e.1 == v {
            low.push(e.0)
        } else {
            low
        }
    }
}

impl SpanningTreeBuffer {
    /// The buffer holds the tree with the given edges.
    pub open spec fn holds(&self, tree: Seq<Edge>) -> bool {
        forall|v: int|
            0 <= v < self.st.len() ==> (#[trigger] self.st[v])@ == tree_neighbors(tree, v)
    }

    /// A buffer for trees on `n` nodes, with no edges.
    pub fn new(n: usize) -> (r: SpanningTreeBuffer)
        ensures
            r.st.len() == n,
            r.holds(Seq::empty()),
    {
        let mut st: Vec<Vec<usize>> = Vec::new();
        let mut v: usize = 0;
        while v < n
            invariant
                v <= n,
                st.len() == v,
                forall|u: int| 0 <= u < v ==> (#[trigger] st[u])@ == Seq::<usize>::empty(),
            decreases n - v,
        {
            st.push(Vec::new());
            v += 1;
        }
        SpanningTreeBuffer { st }
    }

    /// Drops all edges.
    pub fn clear(&mut self)
        ensures
            final(self).st.len() == old(self).st.len(),
            final(self).holds(Seq::empty()),
    {
        let n: usize = self.st.len();
        let mut v: usize = 0;
        while v < n
            invariant
                v <= n == self.st.len(),
                forall|u: int| 0 <= u < v ==> (#[trigger] self.st[u])@ == Seq::<usize>::empty(),
            decreases n - v,
        {
            self.st.set(v, Vec::new());
            v += 1;
        }
    }

    /// Adds an edge to the tree.
    pub(crate) fn add(&mut self, e: Edge, tree: Ghost<Seq<Edge>>)
        requires
            e.0 < old(self).st.len(),
            e.1 < old(self).st.len(),
            e.0 != e.1,
            old(self).holds(tree@),
        ensures
            final(self).st.len() == old(self).st.len(),
            final(self).holds(tree@.push(e)),
    {
        graph::push_at(&mut self.st, e.0, e.1);
        graph::push_at(&mut self.st, e.1, e.0);
        proof {
            assert(tree@.push(e).drop_last() =~= tree@);
        }
    }
}

/// Whether edges make a spanning tree of `n` nodes: they are one fewer than
/// the nodes and connect them all.
pub open spec fn spans(tree: Seq<Edge>, n: nat) -> bool {
    &&& tree.len() + 1 == n
    &&& connectivity::all_connected(tree, n as int)
}

/// Whether an error tells that too few edges for a spanning tree of a graph
/// were found.
pub open spec fn lacks_edges(graph: &Graph, e: SpanningTreeError) -> bool {
    e matches SpanningTreeError::Disconnected {
        node_count,
        graph_edge_count,
        expected_tree_edges,
        actual_tree_edges,
    } && node_count == graph.order() && graph_edge_count == graph.edges@.len()
        && expected_tree_edges == graph.order() - 1 && actual_tree_edges < expected_tree_edges
}

/// Takes edges in the given order, each unless the taken ones before it
/// connect its nodes already, until they span the graph.
pub fn greedy_spanning_tree(
    graph: &Graph,
    buf: &mut SpanningTreeBuffer,
    edges_by_weight: &Vec<Edge>,
) -> (r: Result<(), SpanningTreeError>)
    requires
        graph.sound(),
        graph.order() > 0,
        old(buf).st.len() >= graph.order(),
        graph::edges_within(edges_by_weight@, graph.order() as int),
    ensures
        final(buf).st.len() == old(buf).st.len(),
        final(buf).holds(
            connectivity::taken(edges_by_weight@, edges_by_weight@.len() as int),
        ),
        r is Ok <==> connectivity::all_connected(edges_by_weight@, graph.order() as int),
        r is Ok ==> spans(
            connectivity::taken(edges_by_weight@, edges_by_weight@.len() as int),
            graph.order(),
        ),
        r matches Err(e) ==> e == (SpanningTreeError::Disconnected {
            node_count: graph.order() as usize,
            graph_edge_count: graph.edges@.len() as usize,
            expected_tree_edges: (graph.order() - 1) as usize,
            actual_tree_edges: connectivity::taken(
                edges_by_weight@,
                edges_by_weight@.len() as int,
            ).len() as usize,
        }),
        r matches Err(e) ==> lacks_edges(graph, e),
{
    buf.clear();
    let n: usize = graph.pops.len();
    let mut sets: UnionFind<usize> = new_sets(n);
    let n_edges: usize = n - 1;
    let mut n_unions: usize = 0;
    let ghost order = edges_by_weight@;
    let mut k: usize = 0;
    proof {
        connectivity::distinct_labels_all_lead(set_labels(sets), n as int);
        assert forall|u: int, v: int|
            0 <= u < n && 0 <= v < n implies (#[trigger] set_labels(sets)[u]
            == #[trigger] set_labels(sets)[v] <==> connectivity::connected(
            connectivity::taken(order, 0),
            u,
            v,
        )) by {
            if u == v {
                connectivity::connected_to_itself(connectivity::taken(order, 0), u);
            } else {
                nothing_is_connected(u, v);
            }
        }
    }
    while k < edges_by_weight.len() && n_unions != n_edges
        invariant
            k <= edges_by_weight.len(),
            order == edges_by_weight@,
            n == graph.order(),
            n > 0,
            n_edges == n - 1,
            n_unions <= k,
            n_unions <= n_edges,
            buf.st.len() == old(buf).st.len(),
            buf.st.len() >= n,
            graph::edges_within(order, n as int),
            set_labels(sets).len() == n,
            n_unions == connectivity::taken(order, k as int).len(),
            connectivity::leaders(set_labels(sets), n as int) == n - n_unions,
            buf.holds(connectivity::taken(order, k as int)),
            forall|u: int, v: int|
                0 <= u < n && 0 <= v < n ==> (#[trigger] set_labels(sets)[u]
                    == #[trigger] set_labels(sets)[v] <==> connectivity::connected(
                    connectivity::taken(order, k as int),
                    u,
                    v,
                )),
        decreases edges_by_weight.len() - k,
    {
        let e: Edge = edges_by_weight[k];
        let ghost tree = connectivity::taken(order, k as int);
        let ghost before = set_labels(sets);
        assert(order[k as int] == e);
        let ghost same = before[e.0 as int] == before[e.1 as int];
        if !same_set(&sets, e.0, e.1) {
            unite(&mut sets, e.0, e.1);
            buf.add(e, Ghost(tree));
            n_unions += 1;
            proof {
                let after = set_labels(sets);
                connectivity::merging_loses_one_leader(before, after, e.0 as int, e.1 as int);
                assert forall|u: int, v: int| 0 <= u < n && 0 <= v < n implies (
                #[trigger] after[u] == #[trigger] after[v] <==> connectivity::connected(
                    tree.push(e),
                    u,
                    v,
                )) by {
                    connectivity::connected_with_one_more(tree, e, u, v);
                    let a = e.0 as int;
                    let b = e.1 as int;
                    assert(before[u] == before[v] <==> connectivity::connected(tree, u, v));
                    assert(before[u] == before[a] <==> connectivity::connected(tree, u, a));
                    assert(before[u] == before[b] <==> connectivity::connected(tree, u, b));
                    assert(before[a] == before[v] <==> connectivity::connected(tree, a, v));
                    assert(before[b] == before[v] <==> connectivity::connected(tree, b, v));
                }
            }
        }
        k += 1;
    }
    proof {
        let labels = set_labels(sets);
        let full = connectivity::taken(order, order.len() as int);
        connectivity::one_leader_means_one_label(labels, n as int);
        if k < order.len() {
            assert forall|u: int, v: int| 0 <= u < n && 0 <= v < n implies connectivity::connected(
                connectivity::taken(order, k as int),
                u,
                v,
            ) by {
                assert(labels[u] == labels[0] && labels[v] == labels[0]);
            }
            nothing_more_is_taken(order, k as int, order.len() as int, n as int);
        }
        assert(full == connectivity::taken(order, k as int));
        assert(order.take(order.len() as int) =~= order);
        if n_unions == n_edges {
            assert forall|u: int, v: int| 0 <= u < n && 0 <= v < n implies #[trigger]
                connectivity::connected(full, u, v) && connectivity::connected(order, u, v) by {
                assert(labels[u] == labels[0] && labels[v] == labels[0]);
                connectivity::taken_connects_alike(order, order.len() as int, u, v);
            }
            assert forall|u: int, v: int|
                0 <= u < n && 0 <= v < n implies #[trigger] connectivity::connected(
                order,
                u,
                v,
            ) by {
                assert(connectivity::connected(full, u, v));
            }
        } else if connectivity::all_connected(order, n as int) {
            assert forall|i: int| 0 <= i < n implies #[trigger] labels[i] == labels[0] by {
                connectivity::taken_connects_alike(order, order.len() as int, i, 0);
                assert(connectivity::connected(order, i, 0));
            }
        }
    }
    if n_unions != n_edges {
        return Err(
            SpanningTreeError::Disconnected {
                node_count: n,
                graph_edge_count: graph.edges.len(),
                expected_tree_edges: n_edges,
                actual_tree_edges: n_unions,
            },
        );
    }
    Ok(())
}

proof fn nothing_is_connected(u: int, v: int)
    requires
        u != v,
    ensures
        !connectivity::connected(Seq::<Edge>::empty(), u, v),
{
    let none = Seq::<Edge>::empty();
    if connectivity::connected(none, u, v) {
        let p = choose|path: Seq<int>|
            path.len() > 0 && path[0] == u && path.last() == v && #[trigger] connectivity::walk(
                none,
                path,
            );
        assert(p.len() > 1);
        assert(graph::joined(none, p[0], p[1]));
    }
}

/// Once the taken edges connect all nodes, no further edge is taken.
proof fn nothing_more_is_taken(order: Seq<Edge>, k: int, m: int, n: int)
    requires
        0 <= k <= m <= order.len(),
        graph::edges_within(order, n),
        connectivity::all_connected(connectivity::taken(order, k), n),
    ensures
        connectivity::taken(order, m) == connectivity::taken(order, k),
    decreases m - k,
{
    if k < m {
        nothing_more_is_taken(order, k, m - 1, n);
        let e = order[m - 1];
        assert(e.0 < e.1 < n);
        assert(connectivity::connected(connectivity::taken(order, k), e.0 as int, e.1 as int));
    }
}

/// The number of edges that touch a node.
pub open spec fn degree(tree: Seq<Edge>, v: int) -> nat {
    tree.filter(|e: Edge| e.0 == v || e.1 == v).len()
}

/// The tree neighbors of a node are those that a tree edge joins it to, one for
/// each such edge.
pub proof fn neighbors_share_an_edge(tree: Seq<Edge>, u: usize, v: usize)
    requires
        forall|i: int| 0 <= i < tree.len() ==> (#[trigger] tree[i]).0 != tree[i].1,
    ensures
        tree_neighbors(tree, v as int).contains(u) <==> graph::joined(tree, u as int, v as int),
        tree_neighbors(tree, v as int).len() == degree(tree, v as int),
    decreases tree.len(),
{
    reveal(Seq::filter);
    if tree.len() > 0 {
        let fewer = tree.drop_last();
        let e = tree.last();
        assert forall|i: int| 0 <= i < fewer.len() implies (#[trigger] fewer[i]).0
            != fewer[i].1 by {
            assert(tree[i].0 != tree[i].1);
        }
        neighbors_share_an_edge(fewer, u, v);
        assert(tree =~= fewer.push(e));
        let before = tree_neighbors(fewer, v as int);
        vectors::contains_pushed(before, e.0, u);
        vectors::contains_pushed(before, e.1, u);
        assert(tree[tree.len() - 1].0 != tree[tree.len() - 1].1);
        if graph::joined(fewer, u as int, v as int) {
            let i = choose|i: int|
                0 <= i < fewer.len() && (((#[trigger] fewer[i]).0 == u && fewer[i].1 == v) || (
                fewer[i].0 == v && fewer[i].1 == u));
            assert(tree[i] == fewer[i]);
        }
        if graph::joined(tree, u as int, v as int) {
            let i = choose|i: int|
                0 <= i < tree.len() && (((#[trigger] tree[i]).0 == u && tree[i].1 == v) || (
                tree[i].0 == v && tree[i].1 == u));
            if i < fewer.len() {
                assert(fewer[i] == tree[i]);
            }
        }
    }
}

} // verus!
