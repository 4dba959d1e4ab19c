//! The graph of two districts taken together.

use vstd::prelude::*;
use crate::columns::Columns;
use crate::graph::{Edge, Graph};
use crate::partition::{Partition, Plan};
use crate::{graph, vectors};

verus! {

/// The graph that two districts induce, and the node of the whole graph that
/// each of its nodes stands for.
#[derive(Debug)]
pub struct SubgraphBuffer {
    pub graph: Graph,
    pub raw_nodes: Vec<usize>,
}

/// The populations of the listed nodes added up.
pub open spec fn node_population(pops: Seq<u32>, nodes: Seq<usize>) -> int
    decreases nodes.len(),
{
    if nodes.len() == 0 {
        0
    } else {
        node_population(pops, nodes.drop_last()) + pops[nodes.last() as int]
    }
}

/// Taking a node out of a list takes its population out of the sum.
pub proof fn population_without(pops: Seq<u32>, nodes: Seq<usize>, p: int)
    requires
        0 <= p < nodes.len(),
    ensures
        node_population(pops, nodes) == node_population(pops, nodes.remove(p))
            + pops[nodes[p] as int],
    decreases nodes.len(),
{
    let init = nodes.drop_last();
    if p == nodes.len() - 1 {
        assert(nodes.remove(p) =~= init);
    } else {
        population_without(pops, init, p);
        assert(nodes.remove(p).drop_last() =~= init.remove(p));
        assert(nodes.remove(p).last() == nodes.last());
    }
}

proof fn population_of_prefix(pops: Seq<u32>, nodes: Seq<usize>, n: int)
    requires
        0 <= n <= pops.len(),
        forall|i: int| 0 <= i < nodes.len() ==> (#[trigger] nodes[i]) < n,
    ensures
        node_population(pops, nodes) == node_population(pops.take(n), nodes),
    decreases nodes.len(),
{
    if nodes.len() > 0 {
        let init = nodes.drop_last();
        assert forall|i: int| 0 <= i < init.len() implies (#[trigger] init[i]) < n by {
            assert(init[i] == nodes[i]);
        }
        population_of_prefix(pops, init, n);
        assert(nodes.last() < n);
    }
}

/// Distinct nodes have at most the population of the whole graph.
pub proof fn distinct_nodes_fit(pops: Seq<u32>, nodes: Seq<usize>)
    requires
        nodes.no_duplicates(),
        forall|i: int| 0 <= i < nodes.len() ==> (#[trigger] nodes[i]) < pops.len(),
    ensures
        0 <= node_population(pops, nodes) <= graph::population(pops),
    decreases pops.len(),
{
    if pops.len() == 0 {
        if nodes.len() > 0 {
            assert(nodes[0] < pops.len());
        }
    } else {
        let m = pops.len() - 1;
        let rest = pops.drop_last();
        assert(rest =~= pops.take(m as int));
        if exists|p: int| 0 <= p < nodes.len() && #[trigger] nodes[p] == m {
            let p = choose|p: int| 0 <= p < nodes.len() && #[trigger] nodes[p] == m;
            let fewer = nodes.remove(p);
            population_without(pops, nodes, p);
            assert forall|i: int| 0 <= i < fewer.len() implies (#[trigger] fewer[i]) < m by {
                let j = if i < p {
                    i
                } else {
                    i + 1
                };
                assert(fewer[i] == nodes[j]);
                assert(nodes[j] != nodes[p]);
            }
            assert(fewer.no_duplicates()) by {
                assert forall|i: int, j: int|
                    0 <= i < fewer.len() && 0 <= j < fewer.len() && i != j implies fewer[i]
                    != fewer[j] by {
                    let x = if i < p {
                        i
                    } else {
                        i + 1
                    };
                    let y = if j < p {
                        j
                    } else {
                        j + 1
                    };
                    assert(fewer[i] == nodes[x] && fewer[j] == nodes[y]);
                }
            }
            distinct_nodes_fit(rest, fewer);
            population_of_prefix(pops, fewer, m as int);
        } else {
            assert forall|i: int| 0 <= i < nodes.len() implies (#[trigger] nodes[i]) < m by {
                assert(nodes[i] != m);
            }
            distinct_nodes_fit(rest, nodes);
            population_of_prefix(pops, nodes, m as int);
        }
    }
}

/// The populations of the listed nodes, in order.
pub open spec fn selected(pops: Seq<u32>, nodes: Seq<usize>) -> Seq<u32> {
    Seq::new(nodes.len(), |i: int| pops[nodes[i] as int])
}

proof fn selected_population(pops: Seq<u32>, nodes: Seq<usize>)
    ensures
        graph::population(selected(pops, nodes)) == node_population(pops, nodes),
    decreases nodes.len(),
{
    if nodes.len() > 0 {
        selected_population(pops, nodes.drop_last());
        assert(selected(pops, nodes).drop_last() =~= selected(pops, nodes.drop_last()));
    }
}

/// Whether a subgraph holds the listed nodes with all that joins them.
pub open spec fn induced(sub: &SubgraphBuffer, whole: &Graph) -> bool {
    &&& sub.graph.pops@ == selected(whole.pops@, sub.raw_nodes@)
    &&& forall|i: int, j: int|
        0 <= i < sub.raw_nodes.len() && 0 <= j < sub.raw_nodes.len() ==> (#[trigger] graph::joined(
            sub.graph.edges@,
            i,
            j,
        ) <==> graph::joined(
            whole.edges@,
            sub.raw_nodes[i] as int,
            sub.raw_nodes[j] as int,
        ))
    &&& forall|i: int, j: usize|
        0 <= i < sub.raw_nodes.len() && j < sub.raw_nodes.len() ==> (
        #[trigger] sub.graph.neighbors[i]@.contains(j)
            <==> whole.neighbors[sub.raw_nodes[i] as int]@.contains(sub.raw_nodes[j as int]))
}

/// The places of the listed nodes.
spec fn placed(places: Seq<Option<usize>>, nodes: Seq<usize>) -> bool {
    &&& forall|v: int|
        #![trigger places[v]]
        0 <= v < places.len() ==> match places[v] {
            Some(i) => i < nodes.len() && nodes[i as int] == v,
            None => !nodes.contains(v as usize),
        }
}

fn find_places(nodes: &Vec<usize>, n: usize) -> (places: Vec<Option<usize>>)
    requires
        nodes@.no_duplicates(),
        forall|i: int| 0 <= i < nodes.len() ==> (#[trigger] nodes[i]) < n,
    ensures
        places.len() == n,
        placed(places@, nodes@),
{
    let mut places: Vec<Option<usize>> = Vec::new();
    let mut v: usize = 0;
    while v < n
        invariant
            v <= n,
            places.len() == v,
            forall|u: int| 0 <= u < v ==> (#[trigger] places[u]) is None,
        decreases n - v,
    {
        places.push(None);
        v += 1;
    }
    let mut i: usize = 0;
    assert(nodes@.take(0) =~= Seq::<usize>::empty());
    while i < nodes.len()
        invariant
            i <= nodes.len(),
            places.len() == n,
            nodes@.no_duplicates(),
            forall|j: int| 0 <= j < nodes.len() ==> (#[trigger] nodes[j]) < n,
            placed(places@, nodes@.take(i as int)),
        decreases nodes.len() - i,
    {
        let ghost before = places@;
        places.set(nodes[i], Some(i));
        i += 1;
        let ghost small = nodes@.take(i - 1);
        let ghost large = nodes@.take(i as int);
        assert(large =~= small.push(nodes@[i - 1]));
        assert forall|v: int| #![trigger places@[v]] 0 <= v < places@.len() implies match places@[v] {
            Some(k) => k < large.len() && large[k as int] == v,
            None => !large.contains(v as usize),
        } by {
            assert(before[v] == before[v]);
            vectors::contains_pushed(small, nodes@[i - 1], v as usize);
            if v != nodes@[i - 1] {
                assert(places@[v] == before[v]);
            }
        }
    }
    assert(nodes@.take(i as int) =~= nodes@);
    places
}

fn select_pops(pops: &Vec<u32>, nodes: &Vec<usize>) -> (r: Vec<u32>)
    requires
        forall|i: int| 0 <= i < nodes.len() ==> (#[trigger] nodes[i]) < pops.len(),
    ensures
        r@ == selected(pops@, nodes@),
{
    let mut r: Vec<u32> = Vec::new();
    let mut i: usize = 0;
    while i < nodes.len()
        invariant
            i <= nodes.len(),
            r.len() == i,
            forall|j: int| 0 <= j < nodes.len() ==> (#[trigger] nodes[j]) < pops.len(),
            forall|j: int| 0 <= j < i ==> (#[trigger] r[j]) == pops[nodes[j] as int],
        decreases nodes.len() - i,
    {
        r.push(pops[nodes[i]]);
        i += 1;
    }
    assert(r@ =~= selected(pops@, nodes@));
    r
}

fn select_edges(whole: &Graph, places: &Vec<Option<usize>>, nodes: &Vec<usize>) -> (r: Vec<Edge>)
    requires
        whole.sound(),
        places.len() == whole.order(),
        placed(places@, nodes@),
        nodes@.no_duplicates(),
        forall|i: int| 0 <= i < nodes.len() ==> (#[trigger] nodes[i]) < whole.order(),
    ensures
        forall|k: int|
            0 <= k < r.len() ==> (#[trigger] r[k]).0 != r[k].1 && r[k].0 < nodes.len() && r[k].1
                < nodes.len(),
        forall|i: int, j: int|
            0 <= i < nodes.len() && 0 <= j < nodes.len() ==> (#[trigger] graph::joined(r@, i, j)
                <==> graph::joined(whole.edges@, nodes[i] as int, nodes[j] as int)),
{
    let mut r: Vec<Edge> = Vec::new();
    let mut k: usize = 0;
    while k < whole.edges.len()
        invariant
            k <= whole.edges.len(),
            whole.sound(),
            places.len() == whole.order(),
            placed(places@, nodes@),
            forall|e: int|
                0 <= e < r.len() ==> (#[trigger] r[e]).0 != r[e].1 && r[e].0 < nodes.len()
                    && r[e].1 < nodes.len(),
            forall|e: int|
                0 <= e < r.len() ==> exists|f: int|
                    0 <= f < k && nodes[(#[trigger] r[e]).0 as int] == (
                    #[trigger] whole.edges[f]).0 && nodes[r[e].1 as int] == whole.edges[f].1,
            forall|f: int|
                0 <= f < k && nodes@.contains((#[trigger] whole.edges[f]).0) && nodes@.contains(
                    whole.edges[f].1,
                ) ==> exists|e: int|
                    0 <= e < r.len() && nodes[(#[trigger] r[e]).0 as int] == whole.edges[f].0
                        && nodes[r[e].1 as int] == whole.edges[f].1,
        decreases whole.edges.len() - k,
    {
        let edge: Edge = whole.edges[k];
        let ghost before = r@;
        assert(edge.0 < edge.1 < whole.order());
        let low: Option<usize> = places[edge.0];
        let high: Option<usize> = places[edge.1];
        assert(places@[edge.0 as int] == low && places@[edge.1 as int] == high);
        if let (Some(i), Some(j)) = (low, high) {
            r.push(Edge(i, j));
        }
        k += 1;
        proof {
            assert forall|e: int| 0 <= e < r.len() implies exists|f: int|
                0 <= f < k && nodes[(#[trigger] r@[e]).0 as int] == (
                #[trigger] whole.edges@[f]).0 && nodes[r@[e].1 as int] == whole.edges@[f].1 by {
                if e < before.len() {
                    assert(r@[e] == before[e]);
                    let f = choose|f: int|
                        0 <= f < k - 1 && nodes[before[e].0 as int] == (
                        #[trigger] whole.edges@[f]).0 && nodes[before[e].1 as int]
                            == whole.edges@[f].1;
                    assert(whole.edges@[f].0 == whole.edges@[f].0);
                } else {
                    assert(whole.edges@[k - 1] == edge);
                }
            }
            assert forall|f: int|
                0 <= f < k && nodes@.contains((#[trigger] whole.edges@[f]).0) && nodes@.contains(
                    whole.edges@[f].1,
                ) implies exists|e: int|
                0 <= e < r.len() && nodes[(#[trigger] r@[e]).0 as int] == whole.edges@[f].0
                    && nodes[r@[e].1 as int] == whole.edges@[f].1 by {
                if f < k - 1 {
                    let e = choose|e: int|
                        0 <= e < before.len() && nodes[(#[trigger] before[e]).0 as int]
                            == whole.edges@[f].0 && nodes[before[e].1 as int] == whole.edges@[f].1;
                    assert(r@[e] == before[e]);
                } else {
                    assert(r@[before.len() as int].0 == low->0);
                }
            }
        }
    }
    assert forall|i: int, j: int| 0 <= i < nodes.len() && 0 <= j < nodes.len() implies (
    #[trigger] graph::joined(r@, i, j) <==> graph::joined(
        whole.edges@,
        nodes[i] as int,
        nodes[j] as int,
    )) by {
        if graph::joined(r@, i, j) {
            let e = choose|e: int|
                0 <= e < r@.len() && (((#[trigger] r@[e]).0 == i && r@[e].1 == j) || (r@[e].0 == j
                    && r@[e].1 == i));
            let f = choose|f: int|
                0 <= f < whole.edges.len() && nodes[r@[e].0 as int] == (
                #[trigger] whole.edges@[f]).0 && nodes[r@[e].1 as int] == whole.edges@[f].1;
            assert(whole.edges@[f].0 == whole.edges@[f].0);
        }
        if graph::joined(whole.edges@, nodes[i] as int, nodes[j] as int) {
            let f = choose|f: int|
                0 <= f < whole.edges@.len() && (((#[trigger] whole.edges@[f]).0 == nodes[i]
                    && whole.edges@[f].1 == nodes[j]) || (whole.edges@[f].0 == nodes[j]
                    && whole.edges@[f].1 == nodes[i]));
            assert(nodes@.contains(nodes[i]) && nodes@.contains(nodes[j]));
            let e = choose|e: int|
                0 <= e < r.len() && nodes[(#[trigger] r@[e]).0 as int] == whole.edges@[f].0
                    && nodes[r@[e].1 as int] == whole.edges@[f].1;
            assert(r@[e].0 == r@[e].0);
        }
    }
    r
}

fn select_neighbors(whole: &Graph, places: &Vec<Option<usize>>, nodes: &Vec<usize>) -> (r: Vec<
    Vec<usize>,
>)
    requires
        whole.sound(),
        places.len() == whole.order(),
        placed(places@, nodes@),
        nodes@.no_duplicates(),
        forall|i: int| 0 <= i < nodes.len() ==> (#[trigger] nodes[i]) < whole.order(),
    ensures
        r.len() == nodes.len(),
        graph::neighbors_within(r@, nodes@.len() as int),
        forall|i: int, j: usize|
            0 <= i < nodes.len() && j < nodes.len() ==> (#[trigger] r[i]@.contains(j)
                <==> whole.neighbors[nodes[i] as int]@.contains(nodes[j as int])),
{
    let mut r: Vec<Vec<usize>> = Vec::new();
    let mut i: usize = 0;
    while i < nodes.len()
        invariant
            i <= nodes.len(),
            r.len() == i,
            whole.sound(),
            places.len() == whole.order(),
            placed(places@, nodes@),
            nodes@.no_duplicates(),
            forall|k: int| 0 <= k < nodes.len() ==> (#[trigger] nodes[k]) < whole.order(),
            forall|k: int, j: usize|
                0 <= k < i && #[trigger] r[k]@.contains(j) ==> j < nodes.len(),
            forall|k: int, j: usize|
                0 <= k < i && j < nodes.len() ==> (#[trigger] r[k]@.contains(j)
                    <==> whole.neighbors[nodes[k] as int]@.contains(nodes[j as int])),
        decreases nodes.len() - i,
    {
        let all: &Vec<usize> = &whole.neighbors[nodes[i]];
        let mut kept: Vec<usize> = Vec::new();
        let mut k: usize = 0;
        while k < all.len()
            invariant
                k <= all.len(),
                whole.sound(),
                i < nodes.len(),
                nodes[i as int] < whole.order(),
                all == whole.neighbors[nodes[i as int] as int],
                places.len() == whole.order(),
                placed(places@, nodes@),
                nodes@.no_duplicates(),
                forall|j: usize| #[trigger] kept@.contains(j) ==> j < nodes.len(),
                forall|j: usize|
                    j < nodes.len() ==> (#[trigger] kept@.contains(j) <==> all@.take(
                        k as int,
                    ).contains(nodes[j as int])),
            decreases all.len() - k,
        {
            let w: usize = all[k];
            let ghost small = all@.take(k as int);
            let ghost before = kept@;
            assert(all@.contains(w));
            let place: Option<usize> = places[w];
            assert(places@[w as int] == place);
            if let Some(p) = place {
                kept.push(p);
            }
            k += 1;
            assert(all@.take(k as int) =~= small.push(w));
            assert forall|j: usize| j < nodes.len() implies (#[trigger] kept@.contains(j)
                <==> all@.take(k as int).contains(nodes[j as int])) by {
                vectors::contains_pushed(small, w, nodes[j as int]);
                assert(before.contains(j) <==> small.contains(nodes[j as int]));
                if let Some(p) = place {
                    vectors::contains_pushed(before, p, j);
                    assert(nodes[p as int] == w);
                } else {
                    assert(nodes@.contains(nodes[j as int]));
                }
            }
            assert forall|j: usize| #[trigger] kept@.contains(j) implies j < nodes.len() by {
                if let Some(p) = place {
                    vectors::contains_pushed(before, p, j);
                }
            }
        }
        assert(all@.take(k as int) =~= all@);
        r.push(kept);
        i += 1;
    }
    r
}

/// Whether a graph is that of two districts taken together.
pub open spec fn merges(whole: &Graph, plan: Plan, a: int, b: int, sub: &SubgraphBuffer) -> bool {
    &&& sub.graph.sound()
    &&& whole.valid() ==> sub.graph.valid()
    &&& sub.raw_nodes@ == plan.dist_nodes[a] + plan.dist_nodes[b]
    &&& induced(sub, whole)
}

/// The graph of two districts taken together.
pub fn merged_subgraph(whole: &Graph, partition: &Partition, a: usize, b: usize) -> (r:
    SubgraphBuffer)
    requires
        whole.sound(),
        partition@.valid(),
        partition@.assignments.len() == whole.order(),
        a < partition.num_dists,
        b < partition.num_dists,
        a != b,
    ensures
        r.graph.sound(),
        whole.valid() ==> r.graph.valid(),
        r.raw_nodes@ == partition@.dist_nodes[a as int] + partition@.dist_nodes[b as int],
        r.raw_nodes@.no_duplicates(),
        induced(&r, whole),
        merges(whole, partition@, a as int, b as int, &r),
{
    let ghost plan = partition@;
    let mut nodes: Vec<usize> = vectors::copied(&partition.dist_nodes[a]);
    let second: &Vec<usize> = &partition.dist_nodes[b];
    let ghost first = plan.dist_nodes[a as int];
    assert(nodes@ == first);
    assert(second@ == plan.dist_nodes[b as int]);
    let mut i: usize = 0;
    assert(nodes@ =~= first + second@.take(0));
    while i < second.len()
        invariant
            i <= second.len(),
            nodes@ == first + second@.take(i as int),
        decreases second.len() - i,
    {
        nodes.push(second[i]);
        i += 1;
        assert(nodes@ =~= first + second@.take(i as int));
    }
    assert(second@.take(i as int) =~= second@);
    proof {
        assert forall|i: int| 0 <= i < nodes.len() implies (#[trigger] nodes[i])
            < whole.order() by {
            if i < first.len() {
                assert(first.contains(first[i]));
            } else {
                assert(second@.contains(second@[i - first.len()]));
            }
        }
        assert forall|i: int, j: int|
            0 <= i < nodes@.len() && 0 <= j < nodes@.len() && i != j implies nodes@[i]
            != nodes@[j] by {
            assert(first.no_duplicates() && second@.no_duplicates());
            if i < first.len() && j >= first.len() {
                assert(first.contains(nodes@[i]));
                assert(second@.contains(nodes@[j]));
            } else if j < first.len() && i >= first.len() {
                assert(first.contains(nodes@[j]));
                assert(second@.contains(nodes@[i]));
            }
        }
        distinct_nodes_fit(whole.pops@, nodes@);
        selected_population(whole.pops@, nodes@);
        crate::stats::sums::distinct_indices_are_few(nodes@, whole.order());
    }
    let n: usize = whole.pops.len();
    let places: Vec<Option<usize>> = find_places(&nodes, n);
    let pops: Vec<u32> = select_pops(&whole.pops, &nodes);
    let raw: Vec<Edge> = select_edges(whole, &places, &nodes);
    let neighbors: Vec<Vec<usize>> = select_neighbors(whole, &places, &nodes);
    let m: usize = nodes.len();
    let edges: Vec<Edge> = graph::sort_edges(&raw, m);
    let starts: Vec<usize> = graph::count_starts(&edges, m);
    let total: u64 = graph::add_population(&pops);
    proof {
        if whole.valid() {
            assert forall|u: int, v: usize| 0 <= u < neighbors.len() implies (
            #[trigger] neighbors@[u]@.contains(v) <==> graph::joined(edges@, u, v as int)) by {
                if v < m {
                    assert(graph::joined(edges@, u, v as int) == graph::joined(
                        raw@,
                        u,
                        v as int,
                    ));
                    assert(whole.neighbors@[nodes[u] as int]@.contains(nodes[v as int])
                        <==> graph::joined(
                        whole.edges@,
                        nodes[u] as int,
                        nodes[v as int] as int,
                    ));
                } else if graph::joined(edges@, u, v as int) {
                    let e = choose|e: int|
                        0 <= e < edges@.len() && (((#[trigger] edges@[e]).0 == u && edges@[e].1
                            == v) || (edges@[e].0 == v && edges@[e].1 == u));
                    assert(edges@[e].0 < edges@[e].1 < m);
                }
            }
        }
    }
    SubgraphBuffer {
        graph: Graph {
            edges,
            pops,
            neighbors,
            edges_start: starts,
            total_pop: total as u32,
            attr: Columns::new(),
            edge_attr: Columns::new(),
            int_attr: Columns::new(),
            float_attr: Columns::new(),
        },
        raw_nodes: nodes,
    }
}

/// A population counts each node once: that of two lists is the sum of theirs,
/// and that of one node is its own.
pub proof fn populations_take_each_node_once(
    pops: Seq<u32>,
    a: Seq<usize>,
    b: Seq<usize>,
    v: usize,
)
    ensures
        node_population(pops, a + b) == node_population(pops, a) + node_population(pops, b),
        node_population(pops, seq![v]) == pops[v as int],
        node_population(pops, Seq::<usize>::empty()) == 0,
    decreases b.len(),
{
    assert(seq![v].drop_last() =~= Seq::<usize>::empty());
    assert(node_population(pops, seq![v].drop_last()) == 0);
    if b.len() == 0 {
        assert(a + b =~= a);
    } else {
        assert((a + b).drop_last() =~= a + b.drop_last());
        populations_take_each_node_once(pops, a, b.drop_last(), v);
    }
}

} // verus!
