//! Compactness of districts after Polsby and Popper.

use vstd::prelude::*;
use crate::constraints;
use crate::double;
use crate::double::{Arithmetic, Double, Op};
use crate::graph;
use crate::graph::{Edge, Graph};
use crate::objectives::aggregation::Aggregation;
use crate::objectives::incremental::IncrementalObjective;
use crate::partition::{Partition, Plan};
use crate::recom::pairs;
use crate::recom::proposal::{RecomProposal, Redraw};
use crate::stats::sums;
use crate::vectors;

verus! {

/// Aggregates the Polsby-Popper score over districts.
pub struct PolsbyPopper<F> {
    pub area_col: String,
    /// The column of total node perimeters.
    pub perim_col: String,
    /// The edge column of perimeters that two nodes share.
    pub shared_perim_col: String,
    /// The column of outer perimeters, where total perimeters are derived.
    pub boundary_perim_col: Option<String>,
    pub aggregation: Aggregation,
    pub arithmetic: Arithmetic<F>,
}

/// What is kept about the districts.
#[derive(Debug)]
pub struct PolsbyPopperState {
    pub areas: Vec<Double>,
    pub perimeters: Vec<Double>,
    pub district_scores: Vec<Double>,
    pub score: Double,
}

/// The score of a district: four pi times the area over the squared perimeter,
/// or zero where there is no perimeter.
pub open spec fn compactness<F: Fn(Op, Double, Double) -> Double>(
    numbers: Arithmetic<F>,
    area: Double,
    perimeter: Double,
) -> Double {
    if perimeter.at_most(double::zero()) {
        double::zero()
    } else {
        numbers.quotient(
            numbers.product(numbers.product(double::four(), double::pi()), area),
            numbers.product(perimeter, perimeter),
        )
    }
}

/// The score of a district.
pub fn polsby_popper_score<F: Fn(Op, Double, Double) -> Double>(
    numbers: &Arithmetic<F>,
    area: Double,
    perimeter: Double,
) -> (r: Double)
    requires
        numbers.valid(),
    ensures
        r == compactness(*numbers, area, perimeter),
{
    if perimeter.le(double::zero()) {
        double::zero()
    } else {
        numbers.over(
            numbers.times(numbers.times(double::four(), double::pi()), area),
            numbers.times(perimeter, perimeter),
        )
    }
}

/// Whether both ends of an edge are listed.
pub open spec fn inner(nodes: Seq<usize>, edge: Edge) -> bool {
    nodes.contains(edge.0) && nodes.contains(edge.1)
}

/// A perimeter less twice the shared perimeter of each inner edge below `k`,
/// taken off one by one.
pub open spec fn reduced<F: Fn(Op, Double, Double) -> Double>(
    numbers: Arithmetic<F>,
    raw: Double,
    edges: Seq<Edge>,
    shared: Seq<Double>,
    nodes: Seq<usize>,
    k: int,
) -> Double
    decreases k,
{
    if k <= 0 {
        raw
    } else {
        let before = reduced(numbers, raw, edges, shared, nodes, k - 1);
        if inner(nodes, edges[k - 1]) {
            numbers.difference(before, numbers.product(double::two(), shared[k - 1]))
        } else {
            before
        }
    }
}

/// The edges from `lo` up to `hi` whose upper node is listed.
pub open spec fn range_edges(edges: Seq<Edge>, nodes: Seq<usize>, lo: int, hi: int) -> Seq<int>
    decreases hi,
{
    if hi <= lo || hi <= 0 {
        Seq::empty()
    } else {
        let before = range_edges(edges, nodes, lo, hi - 1);
        if nodes.contains(edges[hi - 1].1) {
            before.push(hi - 1)
        } else {
            before
        }
    }
}

/// The first edge after those of a lower node.
pub open spec fn range_end(starts: Seq<usize>, m: int, v: int) -> int {
    if v + 1 < starts.len() {
        starts[v + 1] as int
    } else {
        m
    }
}

/// The inner edges of the listed nodes as they are met when going through the
/// first `i` nodes and the edges that each of them is the lower node of.
pub open spec fn swept_edges(
    edges: Seq<Edge>,
    starts: Seq<usize>,
    nodes: Seq<usize>,
    i: int,
) -> Seq<int>
    decreases i,
{
    if i <= 0 {
        Seq::empty()
    } else {
        let v = nodes[i - 1] as int;
        swept_edges(edges, starts, nodes, i - 1) + range_edges(
            edges,
            nodes,
            starts[v] as int,
            range_end(starts, edges.len() as int, v),
        )
    }
}

proof fn range_edges_are_listed(edges: Seq<Edge>, nodes: Seq<usize>, lo: int, hi: int)
    requires
        0 <= lo,
        hi <= edges.len(),
    ensures
        forall|e: int|
            #![trigger range_edges(edges, nodes, lo, hi).contains(e)]
            range_edges(edges, nodes, lo, hi).contains(e) <==> lo <= e < hi && nodes.contains(
                edges[e].1,
            ),
        range_edges(edges, nodes, lo, hi).no_duplicates(),
    decreases hi,
{
    if hi > lo && hi > 0 {
        range_edges_are_listed(edges, nodes, lo, hi - 1);
        let before = range_edges(edges, nodes, lo, hi - 1);
        let after = range_edges(edges, nodes, lo, hi);
        assert forall|e: int| #[trigger] after.contains(e) <==> lo <= e < hi && nodes.contains(
            edges[e].1,
        ) by {
            assert(before.contains(e) <==> lo <= e < hi - 1 && nodes.contains(edges[e].1));
            if nodes.contains(edges[hi - 1].1) {
                pushed_contains(before, hi - 1, e);
            }
        }
        if nodes.contains(edges[hi - 1].1) {
            assert(!before.contains(hi - 1));
            assert forall|i: int, j: int|
                0 <= i < after.len() && 0 <= j < after.len() && i != j implies after[i]
                != after[j] by {
                if i < before.len() {
                    assert(before.contains(before[i]));
                }
                if j < before.len() {
                    assert(before.contains(before[j]));
                }
            }
        }
    }
}

proof fn pushed_contains(s: Seq<int>, x: int, e: int)
    ensures
        s.push(x).contains(e) <==> s.contains(e) || e == x,
{
    assert(s.push(x)[s.len() as int] == x);
    if s.contains(e) {
        let i = choose|i: int| 0 <= i < s.len() && s[i] == e;
        assert(s.push(x)[i] == e);
    }
}

/// The edges met are the inner edges whose lower node is among the first `i`
/// nodes, each once.
proof fn swept_edges_upto(
    edges: Seq<Edge>,
    starts: Seq<usize>,
    nodes: Seq<usize>,
    i: int,
)
    requires
        graph::edges_within(edges, starts.len() as int),
        graph::starts_match(edges, starts),
        nodes.no_duplicates(),
        forall|k: int| 0 <= k < nodes.len() ==> (#[trigger] nodes[k]) < starts.len(),
        0 <= i <= nodes.len(),
    ensures
        forall|e: int|
            #![trigger swept_edges(edges, starts, nodes, i).contains(e)]
            swept_edges(edges, starts, nodes, i).contains(e) <==> 0 <= e < edges.len()
                && nodes.take(i).contains(edges[e].0) && nodes.contains(edges[e].1),
        swept_edges(edges, starts, nodes, i).no_duplicates(),
    decreases i,
{
    if i > 0 {
        swept_edges_upto(edges, starts, nodes, i - 1);
        let v = nodes[i - 1] as int;
        let m = edges.len() as int;
        let lo = starts[v] as int;
        let hi = range_end(starts, m, v);
        let before = swept_edges(edges, starts, nodes, i - 1);
        let more = range_edges(edges, nodes, lo, hi);
        let after = swept_edges(edges, starts, nodes, i);
        range_edges_are_listed(edges, nodes, lo, hi);
        assert forall|e: int| 0 <= e < m implies (lo <= e < hi <==> edges[e].0 == v) by {
            assert(e < starts[v] <==> edges[e].0 < v);
            assert(edges[e].0 < edges[e].1 < starts.len());
            if v + 1 < starts.len() {
                assert(e < starts[v + 1] <==> edges[e].0 < v + 1);
            }
        }
        assert(nodes.take(i) =~= nodes.take(i - 1).push(nodes[i - 1]));
        assert forall|e: int| #[trigger] after.contains(e) <==> 0 <= e < m && nodes.take(
            i,
        ).contains(edges[e].0) && nodes.contains(edges[e].1) by {
            joined_contains(before, more, e);
            assert(before.contains(e) <==> 0 <= e < m && nodes.take(i - 1).contains(edges[e].0)
                && nodes.contains(edges[e].1));
            assert(more.contains(e) <==> lo <= e < hi && nodes.contains(edges[e].1));
            vectors::contains_pushed(nodes.take(i - 1), nodes[i - 1], edges[e].0);
        }
        assert forall|a: int, b: int|
            0 <= a < after.len() && 0 <= b < after.len() && a != b implies after[a]
            != after[b] by {
            assert forall|e: int| before.contains(e) && more.contains(e) implies false by {
                assert(nodes.take(i - 1).contains(edges[e].0));
                let firsts = nodes.take(i - 1);
                let k = choose|k: int| 0 <= k < firsts.len() && firsts[k] == edges[e].0;
                assert(nodes[k] == nodes[i - 1]);
            }
            if a < before.len() {
                assert(before.contains(before[a]));
                if b >= before.len() {
                    assert(more.contains(more[b - before.len()]));
                }
            } else {
                assert(more.contains(more[a - before.len()]));
                if b < before.len() {
                    assert(before.contains(before[b]));
                }
            }
        }
    }
}

proof fn joined_contains(a: Seq<int>, b: Seq<int>, e: int)
    ensures
        (a + b).contains(e) <==> a.contains(e) || b.contains(e),
{
    if a.contains(e) {
        let i = choose|i: int| 0 <= i < a.len() && a[i] == e;
        assert((a + b)[i] == e);
    }
    if b.contains(e) {
        let i = choose|i: int| 0 <= i < b.len() && b[i] == e;
        assert((a + b)[a.len() + i] == e);
    }
}

/// Going through the nodes of a district meets each edge inside the district
/// once, and no other edge.
pub proof fn each_inner_edge_is_met_once(graph: &Graph, nodes: Seq<usize>)
    requires
        graph.sound(),
        nodes.no_duplicates(),
        forall|k: int| 0 <= k < nodes.len() ==> (#[trigger] nodes[k]) < graph.order(),
    ensures
        forall|e: int|
            #![trigger swept_edges(
                graph.edges@,
                graph.edges_start@,
                nodes,
                nodes.len() as int,
            ).contains(e)]
            swept_edges(graph.edges@, graph.edges_start@, nodes, nodes.len() as int).contains(e)
                <==> 0 <= e < graph.edges@.len() && inner(nodes, graph.edges@[e]),
        swept_edges(
            graph.edges@,
            graph.edges_start@,
            nodes,
            nodes.len() as int,
        ).no_duplicates(),
{
    swept_edges_upto(graph.edges@, graph.edges_start@, nodes, nodes.len() as int);
    assert(nodes.take(nodes.len() as int) =~= nodes);
}

/// The values at the listed places.
pub open spec fn picked(values: Seq<Double>, places: Seq<int>) -> Seq<Double> {
    Seq::new(places.len(), |i: int| values[places[i]])
}

/// The inner edges below `k`.
spec fn inner_edges(edges: Seq<Edge>, nodes: Seq<usize>, k: int) -> Seq<int>
    decreases k,
{
    if k <= 0 {
        Seq::empty()
    } else if inner(nodes, edges[k - 1]) {
        inner_edges(edges, nodes, k - 1).push(k - 1)
    } else {
        inner_edges(edges, nodes, k - 1)
    }
}

proof fn inner_edges_are_listed(edges: Seq<Edge>, nodes: Seq<usize>, k: int)
    requires
        0 <= k <= edges.len(),
    ensures
        inner_edges(edges, nodes, k).no_duplicates(),
        forall|e: int| #[trigger]
            inner_edges(edges, nodes, k).contains(e) <==> 0 <= e < k && inner(nodes, edges[e]),
    decreases k,
{
    if k > 0 {
        let before = inner_edges(edges, nodes, k - 1);
        inner_edges_are_listed(edges, nodes, k - 1);
        assert forall|e: int| #[trigger]
            inner_edges(edges, nodes, k).contains(e) <==> 0 <= e < k && inner(
                nodes,
                edges[e],
            ) by {
            assert(before.contains(e) <==> 0 <= e < k - 1 && inner(nodes, edges[e]));
            joined_contains(before, seq![k - 1], e);
            assert(before + seq![k - 1] =~= before.push(k - 1));
            assert(seq![k - 1][0] == k - 1);
            assert(seq![k - 1].contains(e) <==> e == k - 1);
        }
        assert forall|i: int, j: int|
            0 <= i < inner_edges(edges, nodes, k).len() && 0 <= j < inner_edges(
                edges,
                nodes,
                k,
            ).len() && i != j implies inner_edges(edges, nodes, k)[i] != inner_edges(
            edges,
            nodes,
            k,
        )[j] by {
            if i < before.len() {
                assert(before.contains(before[i]));
            }
            if j < before.len() {
                assert(before.contains(before[j]));
            }
        }
    }
}

/// What listed places weigh, added up.
pub open spec fn weigh(weight: spec_fn(int) -> int, places: Seq<int>) -> int
    decreases places.len(),
{
    if places.len() == 0 {
        0
    } else {
        weigh(weight, places.drop_last()) + weight(places.last())
    }
}

proof fn weigh_without(weight: spec_fn(int) -> int, places: Seq<int>, j: int)
    requires
        0 <= j < places.len(),
    ensures
        weigh(weight, places) == weigh(weight, places.remove(j)) + weight(places[j]),
    decreases places.len(),
{
    if j == places.len() - 1 {
        assert(places.remove(j) =~= places.drop_last());
    } else {
        weigh_without(weight, places.drop_last(), j);
        assert(places.remove(j).drop_last() =~= places.drop_last().remove(j));
    }
}

/// Lists of the same distinct places weigh the same.
proof fn same_places_weigh_alike(weight: spec_fn(int) -> int, s: Seq<int>, t: Seq<int>)
    requires
        s.no_duplicates(),
        t.no_duplicates(),
        forall|e: int| #[trigger] s.contains(e) <==> t.contains(e),
    ensures
        weigh(weight, s) == weigh(weight, t),
    decreases s.len(),
{
    if s.len() == 0 {
        if t.len() > 0 {
            assert(t.contains(t[0]));
            assert(s.contains(t[0]));
        }
    } else {
        let e = s.last();
        let rest = s.drop_last();
        assert(s.contains(e));
        let j = choose|j: int| 0 <= j < t.len() && t[j] == e;
        let others = t.remove(j);
        assert forall|x: int| #[trigger] rest.contains(x) <==> others.contains(x) by {
            if rest.contains(x) {
                let i = choose|i: int| 0 <= i < rest.len() && rest[i] == x;
                assert(s[i] == x && s[i] != s[s.len() - 1]);
                assert(s.contains(x));
                let k = choose|k: int| 0 <= k < t.len() && t[k] == x;
                if k < j {
                    assert(others[k] == x);
                } else {
                    assert(others[k - 1] == x);
                }
            }
            if others.contains(x) {
                let k = choose|k: int| 0 <= k < others.len() && others[k] == x;
                let k2 = if k < j {
                    k
                } else {
                    k + 1
                };
                assert(t[k2] == x && t[k2] != t[j]);
                assert(t.contains(x));
                assert(s.contains(x));
                let i = choose|i: int| 0 <= i < s.len() && s[i] == x;
                assert(rest[i] == x);
            }
        }
        assert(others.no_duplicates()) by {
            assert forall|a: int, b: int|
                0 <= a < others.len() && 0 <= b < others.len() && a != b implies others[a]
                != others[b] by {
                let a2 = if a < j {
                    a
                } else {
                    a + 1
                };
                let b2 = if b < j {
                    b
                } else {
                    b + 1
                };
                assert(t[a2] != t[b2]);
            }
        }
        same_places_weigh_alike(weight, rest, others);
        weigh_without(weight, t, j);
    }
}

/// What the value at a place stands for on a scale.
pub open spec fn value_at(
    scale: spec_fn(Double) -> Option<int>,
    values: Seq<Double>,
) -> spec_fn(int) -> int {
    |e: int| scale(values[e])->0
}

/// How large the value at a place is on a scale.
pub open spec fn size_at(
    scale: spec_fn(Double) -> Option<int>,
    values: Seq<Double>,
) -> spec_fn(int) -> int {
    |e: int|
        if scale(values[e])->0 < 0 {
            -scale(values[e])->0
        } else {
            scale(values[e])->0
        }
}

proof fn weight_is_in_size(
    scale: spec_fn(Double) -> Option<int>,
    values: Seq<Double>,
    places: Seq<int>,
)
    ensures
        -weigh(size_at(scale, values), places) <= weigh(value_at(scale, values), places) <= weigh(
            size_at(scale, values),
            places,
        ),
    decreases places.len(),
{
    if places.len() > 0 {
        weight_is_in_size(scale, values, places.drop_last());
    }
}

proof fn total_is_exact<F: Fn(Op, Double, Double) -> Double>(
    numbers: Arithmetic<F>,
    scale: spec_fn(Double) -> Option<int>,
    bound: int,
    values: Seq<Double>,
    places: Seq<int>,
)
    requires
        numbers.exact_on(scale, bound),
        forall|i: int|
            0 <= i < places.len() ==> scale(values[#[trigger] places[i]]) is Some,
        weigh(size_at(scale, values), places) <= bound,
    ensures
        scale(numbers.total(picked(values, places))) == Some(
            weigh(value_at(scale, values), places),
        ),
    decreases places.len(),
{
    if places.len() == 0 {
        assert(picked(values, places) =~= Seq::<Double>::empty());
        reveal(Arithmetic::exact_on);
    } else {
        let init = places.drop_last();
        assert(scale(values[places[places.len() - 1]]) is Some);
        assert forall|i: int| 0 <= i < init.len() implies scale(
            values[#[trigger] init[i]],
        ) is Some by {
            assert(init[i] == places[i]);
        }
        weight_is_in_size(scale, values, places);
        weight_is_in_size(scale, values, init);
        total_is_exact(numbers, scale, bound, values, init);
        assert(picked(values, places).drop_last() =~= picked(values, init));
        numbers.exact_results(
            scale,
            bound,
            numbers.total(picked(values, init)),
            values[places.last()],
        );
    }
}

/// Perimeters that are taken off edge by edge are exact on a scale.
proof fn reduced_is_exact<F: Fn(Op, Double, Double) -> Double>(
    numbers: Arithmetic<F>,
    scale: spec_fn(Double) -> Option<int>,
    bound: int,
    raw: Double,
    edges: Seq<Edge>,
    shared: Seq<Double>,
    nodes: Seq<usize>,
    k: int,
)
    requires
        numbers.exact_on(scale, bound),
        0 <= k <= edges.len(),
        scale(raw) is Some,
        forall|e: int| 0 <= e < k && inner(nodes, edges[e]) ==> scale(#[trigger] shared[e]) is Some,
        -bound <= scale(raw)->0 - 2 * weigh(
            size_at(scale, shared),
            inner_edges(edges, nodes, k),
        ),
        scale(raw)->0 + 2 * weigh(size_at(scale, shared), inner_edges(edges, nodes, k)) <= bound,
    ensures
        scale(reduced(numbers, raw, edges, shared, nodes, k)) == Some(
            scale(raw)->0 - 2 * weigh(value_at(scale, shared), inner_edges(edges, nodes, k)),
        ),
    decreases k,
{
    let listed = inner_edges(edges, nodes, k);
    weight_is_in_size(scale, shared, listed);
    if k > 0 {
        let shorter = inner_edges(edges, nodes, k - 1);
        weight_is_in_size(scale, shared, shorter);
        if inner(nodes, edges[k - 1]) {
            assert(listed.drop_last() =~= shorter);
            assert(listed.last() == k - 1);
        }
        reduced_is_exact(numbers, scale, bound, raw, edges, shared, nodes, k - 1);
        if inner(nodes, edges[k - 1]) {
            let before = reduced(numbers, raw, edges, shared, nodes, k - 1);
            assert(scale(shared[k - 1]) is Some);
            numbers.exact_results(scale, bound, before, shared[k - 1]);
            numbers.exact_results(
                scale,
                bound,
                before,
                numbers.product(double::two(), shared[k - 1]),
            );
        }
    }
}

impl<F: Fn(Op, Double, Double) -> Double> PolsbyPopper<F> {
    /// Whether the arithmetic is exact on the perimeters of listed nodes.
    pub open spec fn exact_around(
        &self,
        scale: spec_fn(Double) -> Option<int>,
        bound: int,
        graph: &Graph,
        nodes: Seq<usize>,
    ) -> bool {
        let shared = graph.edge_attr@[self.shared_perim_col@];
        let raw = self.raw_perimeter(graph, nodes);
        let size = weigh(
            size_at(scale, shared),
            swept_edges(graph.edges@, graph.edges_start@, nodes, nodes.len() as int),
        );
        &&& self.arithmetic.exact_on(scale, bound)
        &&& scale(raw) is Some
        &&& forall|e: int|
            0 <= e < graph.edges@.len() && inner(nodes, graph.edges@[e]) ==> scale(
                #[trigger] shared[e],
            ) is Some
        &&& -bound <= scale(raw)->0 - 2 * size
        &&& scale(raw)->0 + 2 * size <= bound
        &&& 2 * size <= bound
    }

    /// Whether the arithmetic is exact on the perimeters of a plan.
    pub open spec fn exact_at(
        &self,
        scale: spec_fn(Double) -> Option<int>,
        bound: int,
        graph: &Graph,
        plan: Plan,
    ) -> bool {
        forall|d: int|
            0 <= d < plan.dist_nodes.len() ==> self.exact_around(
                scale,
                bound,
                graph,
                #[trigger] plan.dist_nodes[d],
            )
    }

    /// Where the arithmetic is exact on it, the perimeter of a district does not
    /// depend on the order in which its inner edges are met.
    pub proof fn perimeters_agree(
        &self,
        scale: spec_fn(Double) -> Option<int>,
        bound: int,
        graph: &Graph,
        nodes: Seq<usize>,
    )
        requires
            graph.sound(),
            self.exact_around(scale, bound, graph, nodes),
            nodes.no_duplicates(),
            forall|k: int| 0 <= k < nodes.len() ==> (#[trigger] nodes[k]) < graph.order(),
        ensures
            self.swept_perimeter(graph, nodes) == self.edgewise_perimeter(graph, nodes),
    {
        let m = graph.edges@.len() as int;
        let shared = graph.edge_attr@[self.shared_perim_col@];
        let raw = self.raw_perimeter(graph, nodes);
        let swept = swept_edges(graph.edges@, graph.edges_start@, nodes, nodes.len() as int);
        let listed = inner_edges(graph.edges@, nodes, m);
        each_inner_edge_is_met_once(graph, nodes);
        inner_edges_are_listed(graph.edges@, nodes, m);
        assert forall|e: int| #[trigger] swept.contains(e) <==> listed.contains(e) by {}
        same_places_weigh_alike(value_at(scale, shared), swept, listed);
        same_places_weigh_alike(size_at(scale, shared), swept, listed);
        assert forall|i: int| 0 <= i < swept.len() implies scale(
            shared[#[trigger] swept[i]],
        ) is Some by {
            assert(swept.contains(swept[i]));
        }
        weight_is_in_size(scale, shared, swept);
        total_is_exact(self.arithmetic, scale, bound, shared, swept);
        reduced_is_exact(
            self.arithmetic,
            scale,
            bound,
            raw,
            graph.edges@,
            shared,
            nodes,
            m,
        );
        let total = self.arithmetic.total(picked(shared, swept));
        self.arithmetic.exact_results(scale, bound, raw, total);
        self.arithmetic.exact_results(
            scale,
            bound,
            raw,
            self.arithmetic.product(double::two(), total),
        );
        self.arithmetic.exact_results(
            scale,
            bound,
            self.swept_perimeter(graph, nodes),
            self.edgewise_perimeter(graph, nodes),
        );
    }

    /// Where the arithmetic is exact on the perimeters, a state that a proposal
    /// leads to is as built from scratch for the redrawn plan.
    pub proof fn exact_state_stays_fresh(
        &self,
        scale: spec_fn(Double) -> Option<int>,
        bound: int,
        graph: &Graph,
        plan: Plan,
        before: PolsbyPopperState,
        p: Redraw,
        after: PolsbyPopperState,
    )
        requires
            self.exact_at(scale, bound, graph, plan.redrawn(p)),
            plan.valid(),
            plan.admits(p),
            plan.assignments.len() == graph.order(),
            graph.sound(),
            self.prepared(graph),
            self.measures(graph, plan),
            self.fresh(graph, plan, before),
            self.applied(graph, before, p, after),
        ensures
            self.fresh(graph, plan.redrawn(p), after),
    {
        self.tracked_state_accepts(graph, plan, before, p);
        self.applied_state_tracks(graph, plan, before, p, after);
        let next = plan.redrawn(p);
        assert(next.dist_nodes[p.a_label as int] == p.a_nodes);
        assert(next.dist_nodes[p.b_label as int] == p.b_nodes);
        self.perimeters_agree(scale, bound, graph, p.a_nodes);
        self.perimeters_agree(scale, bound, graph, p.b_nodes);
        assert forall|d: int|
            #![trigger after.perimeters[d]]
            0 <= d < after.perimeters.len() implies after.perimeters[d] == self.edgewise_perimeter(
            graph,
            next.dist_nodes[d],
        ) by {
            assert(before.perimeters@.len() == plan.dist_nodes.len());
            if d != p.a_label && d != p.b_label {
                assert(next.dist_nodes[d] == plan.dist_nodes[d]);
                assert(after.perimeters[d] == before.perimeters[d]);
            }
        }
    }

    /// The columns are there, with a value for each node and each edge.
    pub open spec fn reads(&self, graph: &Graph) -> bool {
        &&& self.arithmetic.valid()
        &&& graph.float_attr@.contains_key(self.area_col@)
        &&& graph.float_attr@[self.area_col@].len() == graph.order()
        &&& graph.float_attr@.contains_key(self.perim_col@)
        &&& graph.float_attr@[self.perim_col@].len() == graph.order()
        &&& graph.edge_attr@.contains_key(self.shared_perim_col@)
        &&& graph.edge_attr@[self.shared_perim_col@].len() == graph.edges@.len()
    }

    /// The area of the listed nodes.
    pub open spec fn area(&self, graph: &Graph, nodes: Seq<usize>) -> Double {
        constraints::column_total(self.arithmetic, graph, self.area_col@, nodes)
    }

    /// The perimeters of the listed nodes, added up.
    pub open spec fn raw_perimeter(&self, graph: &Graph, nodes: Seq<usize>) -> Double {
        constraints::column_total(self.arithmetic, graph, self.perim_col@, nodes)
    }

    /// The perimeter of the listed nodes, with shared perimeters taken off edge
    /// by edge.
    pub open spec fn edgewise_perimeter(&self, graph: &Graph, nodes: Seq<usize>) -> Double {
        reduced(
            self.arithmetic,
            self.raw_perimeter(graph, nodes),
            graph.edges@,
            graph.edge_attr@[self.shared_perim_col@],
            nodes,
            graph.edges@.len() as int,
        )
    }

    /// The perimeter of the listed nodes, with the sum of the shared perimeters
    /// taken off twice.
    pub open spec fn swept_perimeter(&self, graph: &Graph, nodes: Seq<usize>) -> Double {
        self.arithmetic.difference(
            self.raw_perimeter(graph, nodes),
            self.arithmetic.product(
                double::two(),
                self.arithmetic.total(
                    picked(
                        graph.edge_attr@[self.shared_perim_col@],
                        swept_edges(
                            graph.edges@,
                            graph.edges_start@,
                            nodes,
                            nodes.len() as int,
                        ),
                    ),
                ),
            ),
        )
    }

    /// The score of each district of a plan.
    pub open spec fn scores(&self, graph: &Graph, plan: Plan) -> Seq<Double> {
        Seq::new(
            plan.dist_nodes.len(),
            |d: int|
                compactness(
                    self.arithmetic,
                    self.area(graph, plan.dist_nodes[d]),
                    self.edgewise_perimeter(graph, plan.dist_nodes[d]),
                ),
        )
    }

    /// Scores a plan from scratch.
    pub fn score(&self, graph: &Graph, partition: &Partition) -> (r: Double)
        requires
            graph.sound(),
            partition@.valid(),
            partition@.assignments.len() == graph.order(),
            self.measures(graph, partition@),
        ensures
            r == self.aggregation.of(self.arithmetic, self.scores(graph, partition@)),
    {
        self.init(graph, partition).score
    }

    /// Adds up the perimeters that inner edges share, going through the nodes.
    fn sum_inner(&self, graph: &Graph, shared: &Vec<Double>, nodes: &Vec<usize>) -> (r: Double)
        requires
            graph.sound(),
            self.arithmetic.valid(),
            shared.len() == graph.edges.len(),
            sums::nodes_within(nodes@, graph.order()),
        ensures
            r == self.arithmetic.total(
                picked(
                    shared@,
                    swept_edges(graph.edges@, graph.edges_start@, nodes@, nodes@.len() as int),
                ),
            ),
    {
        let n: usize = graph.pops.len();
        let listed: Vec<bool> = pairs::mark(nodes, n);
        let mut internal: Double = double::zero();
        let mut i: usize = 0;
        assert(picked(shared@, Seq::<int>::empty()) =~= Seq::<Double>::empty());
        while i < nodes.len()
            invariant
                i <= nodes.len(),
                n == graph.order(),
                graph.sound(),
                self.arithmetic.valid(),
                shared.len() == graph.edges.len(),
                sums::nodes_within(nodes@, graph.order()),
                listed.len() == n,
                forall|v: usize|
                    #![trigger nodes@.contains(v)]
                    v < n ==> listed[v as int] == nodes@.contains(v),
                internal == self.arithmetic.total(
                    picked(
                        shared@,
                        swept_edges(graph.edges@, graph.edges_start@, nodes@, i as int),
                    ),
                ),
            decreases nodes.len() - i,
        {
            let v: usize = nodes[i];
            let start: usize = graph.edges_start[v];
            let end: usize = if v + 1 < n {
                graph.edges_start[v + 1]
            } else {
                graph.edges.len()
            };
            let ghost before = swept_edges(graph.edges@, graph.edges_start@, nodes@, i as int);
            let mut e: usize = start;
            assert(graph.edges_start@[v as int] <= graph.edges@.len());
            proof {
                if v + 1 < n {
                    assert(graph.edges_start@[v + 1] <= graph.edges@.len());
                    starts_ascend(graph.edges@, graph.edges_start@, v as int);
                }
                assert(before + range_edges(graph.edges@, nodes@, start as int, start as int)
                    =~= before);
            }
            while e < end
                invariant
                    start <= e <= end,
                    end <= graph.edges.len(),
                    n == graph.order(),
                    graph.sound(),
                    self.arithmetic.valid(),
                    shared.len() == graph.edges.len(),
                    listed.len() == n,
                    forall|v: usize|
                        #![trigger nodes@.contains(v)]
                        v < n ==> listed[v as int] == nodes@.contains(v),
                    internal == self.arithmetic.total(
                        picked(
                            shared@,
                            before + range_edges(graph.edges@, nodes@, start as int, e as int),
                        ),
                    ),
                decreases end - e,
            {
                let edge: Edge = graph.edges[e];
                assert(graph.edges@[e as int].0 < graph.edges@[e as int].1 < graph.order());
                let ghost so_far = before + range_edges(
                    graph.edges@,
                    nodes@,
                    start as int,
                    e as int,
                );
                let ghost next = before + range_edges(
                    graph.edges@,
                    nodes@,
                    start as int,
                    e + 1,
                );
                if listed[edge.1] {
                    internal = self.arithmetic.plus(internal, shared[e]);
                    assert(next =~= so_far.push(e as int));
                    assert(picked(shared@, next).drop_last() =~= picked(shared@, so_far));
                } else {
                    assert(next =~= so_far);
                }
                e += 1;
            }
            i += 1;
        }
        internal
    }

    /// The area and the perimeter of a proposed district.
    pub fn compute_proposal_district_geom(&self, graph: &Graph, nodes: &Vec<usize>) -> (r: (
        Double,
        Double,
    ))
        requires
            graph.sound(),
            self.reads(graph),
            sums::nodes_within(nodes@, graph.order()),
        ensures
            r.0 == self.area(graph, nodes@),
            r.1 == self.swept_perimeter(graph, nodes@),
    {
        let area: Double = constraints::sum_cached_float_col(
            &self.arithmetic,
            graph,
            self.area_col.as_str(),
            nodes,
        );
        let raw: Double = constraints::sum_cached_float_col(
            &self.arithmetic,
            graph,
            self.perim_col.as_str(),
            nodes,
        );
        let mut internal: Double = double::zero();
        if let Some(shared) = graph.edge_attr.get(self.shared_perim_col.as_str()) {
            internal = self.sum_inner(graph, shared, nodes);
        }
        (area, self.arithmetic.minus(raw, self.arithmetic.times(double::two(), internal)))
    }
}

proof fn starts_ascend(edges: Seq<Edge>, starts: Seq<usize>, v: int)
    requires
        graph::starts_match(edges, starts),
        0 <= v,
        v + 1 < starts.len(),
    ensures
        starts[v] <= starts[v + 1],
{
    if starts[v] > starts[v + 1] {
        let e = starts[v + 1] as int;
        assert(starts[v] <= edges.len());
        assert(e < starts[v] <==> edges[e].0 < v);
        assert(e < starts[v + 1] <==> edges[e].0 < v + 1);
    }
}

impl<F: Fn(Op, Double, Double) -> Double> IncrementalObjective for PolsbyPopper<F> {
    type State = PolsbyPopperState;

    open spec fn measures(&self, graph: &Graph, plan: Plan) -> bool {
        self.reads(graph)
    }

    open spec fn prepared(&self, graph: &Graph) -> bool {
        self.reads(graph)
    }

    open spec fn tracks(&self, graph: &Graph, plan: Plan, state: PolsbyPopperState) -> bool {
        &&& self.suits(state)
        &&& state.areas.len() == plan.dist_nodes.len()
        &&& forall|d: int|
            #![trigger plan.dist_nodes[d]]
            0 <= d < plan.dist_nodes.len() ==> {
                &&& state.areas[d] == self.area(graph, plan.dist_nodes[d])
                &&& state.perimeters[d] == self.edgewise_perimeter(graph, plan.dist_nodes[d])
                    || state.perimeters[d] == self.swept_perimeter(graph, plan.dist_nodes[d])
            }
    }

    open spec fn fresh(&self, graph: &Graph, plan: Plan, state: PolsbyPopperState) -> bool {
        &&& self.tracks(graph, plan, state)
        &&& forall|d: int|
            #![trigger state.perimeters[d]]
            0 <= d < state.perimeters.len() ==> state.perimeters[d] == self.edgewise_perimeter(
                graph,
                plan.dist_nodes[d],
            )
    }

    open spec fn rates(&self, graph: &Graph, plan: Plan, score: Double) -> bool {
        score == self.aggregation.of(self.arithmetic, self.scores(graph, plan))
    }

    open spec fn suits(&self, state: PolsbyPopperState) -> bool {
        &&& self.arithmetic.valid()
        &&& state.areas.len() == state.perimeters.len()
        &&& state.areas.len() == state.district_scores.len()
        &&& state.areas.len() <= u32::MAX
        &&& forall|d: int|
            0 <= d < state.areas.len() ==> #[trigger] state.district_scores[d] == compactness(
                self.arithmetic,
                state.areas[d],
                state.perimeters[d],
            )
        &&& state.score == self.aggregation.of(self.arithmetic, state.district_scores@)
    }

    open spec fn accepts(&self, graph: &Graph, state: PolsbyPopperState, p: Redraw) -> bool {
        &&& p.a_label < state.areas.len()
        &&& p.b_label < state.areas.len()
        &&& p.a_label != p.b_label
        &&& sums::nodes_within(p.a_nodes, graph.order())
        &&& sums::nodes_within(p.b_nodes, graph.order())
    }

    open spec fn applied(
        &self,
        graph: &Graph,
        before: PolsbyPopperState,
        p: Redraw,
        after: PolsbyPopperState,
    ) -> bool {
        &&& after.areas@ == before.areas@.update(
            p.a_label as int,
            self.area(graph, p.a_nodes),
        ).update(p.b_label as int, self.area(graph, p.b_nodes))
        &&& after.perimeters@ == before.perimeters@.update(
            p.a_label as int,
            self.swept_perimeter(graph, p.a_nodes),
        ).update(p.b_label as int, self.swept_perimeter(graph, p.b_nodes))
        &&& self.suits(after)
    }

    open spec fn state_score(&self, state: PolsbyPopperState) -> Double {
        state.score
    }

    open spec fn state_district_scores(&self, state: PolsbyPopperState) -> Seq<Double> {
        state.district_scores@
    }

    proof fn fresh_state_rates(&self, graph: &Graph, plan: Plan, state: PolsbyPopperState) {
        let scores = self.scores(graph, plan);
        assert forall|d: int| 0 <= d < scores.len() implies scores[d]
            == #[trigger] state.district_scores@[d] by {
            assert(state.areas[d] == self.area(graph, plan.dist_nodes[d]));
            assert(state.perimeters[d] == self.edgewise_perimeter(graph, plan.dist_nodes[d]));
        }
        assert(state.district_scores@ =~= scores);
    }

    proof fn applied_state_tracks(
        &self,
        graph: &Graph,
        plan: Plan,
        before: PolsbyPopperState,
        p: Redraw,
        after: PolsbyPopperState,
    ) {
        let next = plan.redrawn(p);
        assert forall|d: int|
            #![trigger next.dist_nodes[d]]
            0 <= d < next.dist_nodes.len() implies {
            &&& after.areas[d] == self.area(graph, next.dist_nodes[d])
            &&& after.perimeters[d] == self.edgewise_perimeter(graph, next.dist_nodes[d])
                || after.perimeters[d] == self.swept_perimeter(graph, next.dist_nodes[d])
        } by {
            if d != p.a_label && d != p.b_label {
                assert(next.dist_nodes[d] == plan.dist_nodes[d]);
            }
        }
    }

    proof fn tracked_state_accepts(
        &self,
        graph: &Graph,
        plan: Plan,
        state: PolsbyPopperState,
        p: Redraw,
    ) {
        constraints::redrawn_nodes_are_within(plan, p);
    }

    proof fn redrawn_is_measured(&self, graph: &Graph, plan: Plan, p: Redraw) {
    }

    fn init(&self, graph: &Graph, partition: &Partition) -> (r: PolsbyPopperState) {
        let n_dists: usize = partition.dist_nodes.len();
        let ghost shared_spec = graph.edge_attr@[self.shared_perim_col@];
        proof {
            sums::valid_districts_are_within(partition@, graph.order());
        }
        let mut areas: Vec<Double> = Vec::new();
        let mut perimeters: Vec<Double> = Vec::new();
        let mut d: usize = 0;
        while d < n_dists
            invariant
                d <= n_dists,
                n_dists == partition.dist_nodes.len(),
                graph.sound(),
                self.reads(graph),
                sums::districts_within(partition@.dist_nodes, graph.order()),
                areas.len() == d,
                perimeters.len() == d,
                forall|k: int|
                    #![trigger partition@.dist_nodes[k]]
                    0 <= k < d ==> areas[k] == self.area(graph, partition@.dist_nodes[k])
                        && perimeters[k] == self.raw_perimeter(graph, partition@.dist_nodes[k]),
            decreases n_dists - d,
        {
            assert(partition@.dist_nodes[d as int] == partition.dist_nodes[d as int]@);
            areas.push(
                constraints::sum_cached_float_col(
                    &self.arithmetic,
                    graph,
                    self.area_col.as_str(),
                    &partition.dist_nodes[d],
                ),
            );
            perimeters.push(
                constraints::sum_cached_float_col(
                    &self.arithmetic,
                    graph,
                    self.perim_col.as_str(),
                    &partition.dist_nodes[d],
                ),
            );
            d += 1;
        }
        if let Some(shared) = graph.edge_attr.get(self.shared_perim_col.as_str()) {
            let mut e: usize = 0;
            while e < graph.edges.len()
                invariant
                    e <= graph.edges.len(),
                    n_dists == partition.dist_nodes.len(),
                    graph.sound(),
                    self.reads(graph),
                    shared@ == shared_spec,
                    shared_spec == graph.edge_attr@[self.shared_perim_col@],
                    partition@.valid(),
                    partition@.assignments.len() == graph.order(),
                    perimeters.len() == n_dists,
                    forall|k: int|
                        #![trigger partition@.dist_nodes[k]]
                        0 <= k < n_dists ==> perimeters[k] == reduced(
                            self.arithmetic,
                            self.raw_perimeter(graph, partition@.dist_nodes[k]),
                            graph.edges@,
                            shared_spec,
                            partition@.dist_nodes[k],
                            e as int,
                        ),
                decreases graph.edges.len() - e,
            {
                let edge: Edge = graph.edges[e];
                assert(graph.edges@[e as int].0 < graph.edges@[e as int].1 < graph.order());
                let d_u: usize = partition.assignments[edge.0] as usize;
                let d_v: usize = partition.assignments[edge.1] as usize;
                assert(partition@.assignments[edge.0 as int] < partition@.num_dists);
                let ghost before = perimeters@;
                proof {
                    assert forall|k: int|
                        0 <= k < n_dists implies (inner(
                        #[trigger] partition@.dist_nodes[k],
                        edge,
                    ) <==> k == d_u && k == d_v) by {
                        assert(partition@.dist_nodes[k].contains(edge.0) <==> edge.0
                            < partition@.assignments.len()
                            && partition@.assignments[edge.0 as int] == k);
                        assert(partition@.dist_nodes[k].contains(edge.1) <==> edge.1
                            < partition@.assignments.len()
                            && partition@.assignments[edge.1 as int] == k);
                    }
                }
                if d_u == d_v {
                    let less: Double = self.arithmetic.minus(
                        perimeters[d_u],
                        self.arithmetic.times(double::two(), shared[e]),
                    );
                    assert(before[d_u as int] == reduced(
                        self.arithmetic,
                        self.raw_perimeter(graph, partition@.dist_nodes[d_u as int]),
                        graph.edges@,
                        shared_spec,
                        partition@.dist_nodes[d_u as int],
                        e as int,
                    ));
                    perimeters.set(d_u, less);
                }
                e += 1;
            }
        }
        let mut district_scores: Vec<Double> = Vec::new();
        let mut k: usize = 0;
        while k < n_dists
            invariant
                k <= n_dists,
                self.arithmetic.valid(),
                areas.len() == n_dists,
                perimeters.len() == n_dists,
                district_scores.len() == k,
                forall|j: int|
                    0 <= j < k ==> #[trigger] district_scores[j] == compactness(
                        self.arithmetic,
                        areas[j],
                        perimeters[j],
                    ),
            decreases n_dists - k,
        {
            district_scores.push(
                polsby_popper_score(&self.arithmetic, areas[k], perimeters[k]),
            );
            k += 1;
        }
        let score: Double = self.aggregation.apply(&self.arithmetic, &district_scores);
        let r: PolsbyPopperState = PolsbyPopperState {
            areas,
            perimeters,
            district_scores,
            score,
        };
        assert forall|d: int|
            #![trigger r.perimeters[d]]
            0 <= d < r.perimeters.len() implies r.perimeters[d] == self.edgewise_perimeter(
            graph,
            partition@.dist_nodes[d],
        ) by {
            assert(partition@.dist_nodes[d] == partition@.dist_nodes[d]);
        }
        proof {
            self.fresh_state_rates(graph, partition@, r);
        }
        r
    }

    fn score_state(&self, state: &PolsbyPopperState) -> (r: Double) {
        state.score
    }

    fn score_proposal(
        &self,
        graph: &Graph,
        current: &PolsbyPopperState,
        proposal: &RecomProposal,
    ) -> (r: Double) {
        let mut next: PolsbyPopperState = PolsbyPopperState {
            areas: vectors::copied(&current.areas),
            perimeters: vectors::copied(&current.perimeters),
            district_scores: vectors::copied(&current.district_scores),
            score: current.score,
        };
        self.apply_proposal(graph, &mut next, proposal);
        assert(self.applied(graph, *current, proposal@, next));
        next.score
    }

    fn apply_proposal(
        &self,
        graph: &Graph,
        state: &mut PolsbyPopperState,
        proposal: &RecomProposal,
    ) {
        let a: usize = proposal.a_label;
        let b: usize = proposal.b_label;
        let (a_area, a_perim): (Double, Double) = self.compute_proposal_district_geom(
            graph,
            &proposal.a_nodes,
        );
        let (b_area, b_perim): (Double, Double) = self.compute_proposal_district_geom(
            graph,
            &proposal.b_nodes,
        );
        state.areas.set(a, a_area);
        state.areas.set(b, b_area);
        state.perimeters.set(a, a_perim);
        state.perimeters.set(b, b_perim);
        state.district_scores.set(a, polsby_popper_score(&self.arithmetic, a_area, a_perim));
        state.district_scores.set(b, polsby_popper_score(&self.arithmetic, b_area, b_perim));
        state.score = self.aggregation.apply(&self.arithmetic, &state.district_scores);
    }

    fn district_scores(&self, state: &PolsbyPopperState) -> (r: Vec<Double>) {
        vectors::copied(&state.district_scores)
    }
}

/// The perimeter of a node: its outer perimeter and what it shares along the
/// edges below `k`, added up in order.
pub open spec fn derived_perimeter<F: Fn(Op, Double, Double) -> Double>(
    numbers: Arithmetic<F>,
    boundary: Double,
    edges: Seq<Edge>,
    shared: Seq<Double>,
    v: int,
    k: int,
) -> Double
    decreases k,
{
    if k <= 0 {
        boundary
    } else {
        let before = derived_perimeter(numbers, boundary, edges, shared, v, k - 1);
        if edges[k - 1].0 == v || edges[k - 1].1 == v {
            numbers.sum(before, shared[k - 1])
        } else {
            before
        }
    }
}

/// What keeps a perimeter column from being derived, if anything.
pub open spec fn derive_error(
    graph: &Graph,
    perim_col: Seq<char>,
    boundary_perim_col: Seq<char>,
    shared_perim_col: Seq<char>,
) -> Option<Seq<char>> {
    if !graph.edge_attr@.contains_key(shared_perim_col) {
        Some(
            "Cannot derive '"@ + perim_col + "': missing edge attribute '"@ + shared_perim_col
                + "'"@,
        )
    } else if !graph.attr@.contains_key(boundary_perim_col) {
        Some(
            "Cannot derive '"@ + perim_col + "': missing node attribute '"@ + boundary_perim_col
                + "'"@,
        )
    } else if graph.attr@[boundary_perim_col].len() != graph.order() {
        Some("boundary_perim column length does not match node count"@)
    } else if graph.edge_attr@[shared_perim_col].len() != graph.edges@.len() {
        Some("shared_perim column length does not match edge count"@)
    } else {
        None
    }
}

fn cannot_derive(perim_col: &str, kind: &str, missing: &str) -> (r: String)
    ensures
        r@ == "Cannot derive '"@ + perim_col@ + "': missing "@ + kind@ + " attribute '"@ + missing@
            + "'"@,
{
    let mut out: String = "Cannot derive '".to_string();
    out.append(perim_col);
    out.append("': missing ");
    out.append(kind);
    out.append(" attribute '");
    out.append(missing);
    out.append("'");
    out
}

/// Derives the column of total node perimeters from outer perimeters and the
/// perimeters that edges share, and writes it as text. An outer perimeter that
/// is no number counts as zero. Numbers are read and shown by the given
/// functions.
pub fn ensure_derived_perim_column<
    F: Fn(Op, Double, Double) -> Double,
    P: Fn(&String) -> Option<Double>,
    S: Fn(Double) -> String,
>(
    graph: &mut Graph,
    perim_col: &str,
    boundary_perim_col: &str,
    shared_perim_col: &str,
    numbers: &Arithmetic<F>,
    read: &P,
    show: &S,
) -> (r: Result<(), String>)
    requires
        old(graph).sound(),
        numbers.valid(),
        forall|s: &String| #[trigger] call_requires(*read, (s,)),
        forall|x: Double| #[trigger] call_requires(*show, (x,)),
    ensures
        final(graph).sound(),
        old(graph).valid() ==> final(graph).valid(),
        match r {
            Err(e) => {
                &&& derive_error(
                    old(graph),
                    perim_col@,
                    boundary_perim_col@,
                    shared_perim_col@,
                ) == Some(e@)
                &&& *final(graph) == *old(graph)
            },
            Ok(()) => {
                &&& derive_error(
                    old(graph),
                    perim_col@,
                    boundary_perim_col@,
                    shared_perim_col@,
                ) is None
                &&& final(graph).attr@.contains_key(perim_col@)
                &&& final(graph).attr@ == old(graph).attr@.insert(
                    perim_col@,
                    final(graph).attr@[perim_col@],
                )
                &&& final(graph).attr@[perim_col@].len() == old(graph).order()
                &&& exists|boundary: Seq<Double>|
                    {
                        &&& #[trigger] graph::reads_as(
                            *read,
                            old(graph).attr@[boundary_perim_col@],
                            boundary,
                        )
                        &&& forall|v: int|
                            0 <= v < old(graph).order() ==> call_ensures(
                                *show,
                                (derived_perimeter(
                                    *numbers,
                                    boundary[v],
                                    old(graph).edges@,
                                    old(graph).edge_attr@[shared_perim_col@],
                                    v,
                                    old(graph).edges@.len() as int,
                                ),),
                                #[trigger] final(graph).attr@[perim_col@][v],
                            )
                    }
                &&& final(graph).edges == old(graph).edges
                &&& final(graph).pops == old(graph).pops
                &&& final(graph).neighbors == old(graph).neighbors
                &&& final(graph).edge_attr == old(graph).edge_attr
                &&& final(graph).int_attr == old(graph).int_attr
                &&& final(graph).float_attr == old(graph).float_attr
            },
        },
{
    let shared: Vec<Double> = match graph.edge_attr.get(shared_perim_col) {
        Some(v) => vectors::copied(v),
        None => {
            let e: String = cannot_derive(perim_col, "edge", shared_perim_col);
            proof {
                reveal_strlit("': missing ");
                reveal_strlit("edge");
                reveal_strlit(" attribute '");
                reveal_strlit("': missing edge attribute '");
                assert(e@ =~= "Cannot derive '"@ + perim_col@ + "': missing edge attribute '"@
                    + shared_perim_col@ + "'"@);
            }
            return Err(e);
        },
    };
    let boundary: Vec<Double> = match graph.attr.get(boundary_perim_col) {
        Some(texts) => graph::read_or_zero(texts, read),
        None => {
            let e: String = cannot_derive(perim_col, "node", boundary_perim_col);
            proof {
                reveal_strlit("': missing ");
                reveal_strlit("node");
                reveal_strlit(" attribute '");
                reveal_strlit("': missing node attribute '");
                assert(e@ =~= "Cannot derive '"@ + perim_col@ + "': missing node attribute '"@
                    + boundary_perim_col@ + "'"@);
            }
            return Err(e);
        },
    };
    let n: usize = graph.pops.len();
    if boundary.len() != n {
        return Err("boundary_perim column length does not match node count".to_string());
    }
    if shared.len() != graph.edges.len() {
        return Err("shared_perim column length does not match edge count".to_string());
    }
    let ghost outer = boundary@;
    let mut perims: Vec<Double> = boundary;
    let mut e: usize = 0;
    while e < graph.edges.len()
        invariant
            e <= graph.edges.len(),
            *graph == *old(graph),
            graph.sound(),
            numbers.valid(),
            n == graph.order(),
            shared.len() == graph.edges.len(),
            shared@ == graph.edge_attr@[shared_perim_col@],
            perims.len() == n,
            forall|v: int|
                0 <= v < n ==> #[trigger] perims[v] == derived_perimeter(
                    *numbers,
                    outer[v],
                    graph.edges@,
                    shared@,
                    v,
                    e as int,
                ),
        decreases graph.edges.len() - e,
    {
        let edge: Edge = graph.edges[e];
        assert(graph.edges@[e as int].0 < graph.edges@[e as int].1 < graph.order());
        let w: Double = shared[e];
        let at_low: Double = numbers.plus(perims[edge.0], w);
        let at_high: Double = numbers.plus(perims[edge.1], w);
        perims.set(edge.0, at_low);
        perims.set(edge.1, at_high);
        e += 1;
    }
    let mut texts: Vec<String> = Vec::new();
    let mut v: usize = 0;
    while v < n
        invariant
            v <= n,
            perims.len() == n,
            texts.len() == v,
            forall|x: Double| #[trigger] call_requires(*show, (x,)),
            forall|i: int|
                0 <= i < v ==> call_ensures(*show, (perims[i],), #[trigger] texts[i]),
        decreases n - v,
    {
        texts.push(show(perims[v]));
        v += 1;
    }
    graph.attr.insert(perim_col.to_string(), texts);
    proof {
        assert(graph.attr@ =~= old(graph).attr@.insert(perim_col@, graph.attr@[perim_col@]));
        assert(graph::reads_as(*read, old(graph).attr@[boundary_perim_col@], outer));
        assert forall|v: int| 0 <= v < old(graph).order() implies call_ensures(
            *show,
            (derived_perimeter(
                *numbers,
                outer[v],
                old(graph).edges@,
                old(graph).edge_attr@[shared_perim_col@],
                v,
                old(graph).edges@.len() as int,
            ),),
            #[trigger] graph.attr@[perim_col@][v],
        ) by {
            assert(perims[v] == derived_perimeter(
                *numbers,
                outer[v],
                old(graph).edges@,
                shared@,
                v,
                old(graph).edges@.len() as int,
            ));
        }
    }
    Ok(())
}

/// A district whose area times four pi is its squared perimeter, as a disc's is,
/// scores one. More area scores no less, and more perimeter no more.
pub proof fn discs_are_the_most_compact<F: Fn(Op, Double, Double) -> Double>(
    numbers: Arithmetic<F>,
    area: Double,
    larger: Double,
    perimeter: Double,
    longer: Double,
)
    requires
        numbers.orderly(),
        area.finite(),
        larger.finite(),
        perimeter.finite(),
        longer.finite(),
        double::zero().at_most(area),
        area.at_most(larger),
        double::zero().below(perimeter),
        perimeter.at_most(longer),
        numbers.product(double::four(), double::pi()).finite(),
        double::zero().below(numbers.product(double::four(), double::pi())),
        numbers.product(numbers.product(double::four(), double::pi()), area).finite(),
        numbers.product(numbers.product(double::four(), double::pi()), larger).finite(),
        double::zero().below(numbers.product(perimeter, perimeter)),
        numbers.product(perimeter, perimeter).finite(),
        numbers.product(longer, longer).finite(),
        numbers.product(perimeter, longer) == numbers.product(longer, perimeter),
    ensures
        numbers.product(numbers.product(double::four(), double::pi()), area) == numbers.product(
            perimeter,
            perimeter,
        ) ==> compactness(numbers, area, perimeter) == double::one(),
        double::zero().at_most(compactness(numbers, area, perimeter)),
        compactness(numbers, area, perimeter).at_most(compactness(numbers, larger, perimeter)),
        compactness(numbers, area, longer).at_most(compactness(numbers, area, perimeter)),
        compactness(numbers, double::zero(), perimeter) == double::zero(),
{
    let c = numbers.product(double::four(), double::pi());
    let x = numbers.product(c, area);
    let y = numbers.product(c, larger);
    let s = numbers.product(perimeter, perimeter);
    let t = numbers.product(longer, longer);
    numbers.ordered_results(c, double::zero(), area);
    numbers.ordered_results(c, area, larger);
    numbers.ordered_results(c, c, c);
    numbers.ordered_results(perimeter, perimeter, longer);
    numbers.ordered_results(longer, perimeter, longer);
    numbers.ordered_quotients(x, y, s, t);
    numbers.ordered_quotients(x, y, s, s);
}

/// A district without a perimeter scores zero.
pub proof fn districts_without_a_perimeter_score_zero<F: Fn(Op, Double, Double) -> Double>(
    numbers: Arithmetic<F>,
    area: Double,
    perimeter: Double,
)
    requires
        perimeter.at_most(double::zero()),
    ensures
        compactness(numbers, area, perimeter) == double::zero(),
{
}

} // verus!
