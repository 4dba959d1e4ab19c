//! Cut edges and pairs of adjacent districts.

use rand::rngs::SmallRng;
use vstd::prelude::*;
use crate::graph::{Edge, Graph};
use crate::partition::{Partition, Plan};
use crate::random;
use crate::random::Pick;
use crate::recom::proposal::{RecomProposal, RecomVariant, Redraw};

verus! {

/// Whether the edge at an index joins two districts.
pub open spec fn is_cut(edges: Seq<Edge>, assignments: Seq<u32>, e: int) -> bool {
    assignments[edges[e].0 as int] != assignments[edges[e].1 as int]
}

/// The indices below `k` of the edges between districts, in order.
pub open spec fn cut_places(edges: Seq<Edge>, assignments: Seq<u32>, k: int) -> Seq<usize>
    decreases k,
{
    if k <= 0 {
        Seq::empty()
    } else {
        let before = cut_places(edges, assignments, k - 1);
        if is_cut(edges, assignments, k - 1) {
            before.push((k - 1) as usize)
        } else {
            before
        }
    }
}

proof fn cut_places_are_cut(edges: Seq<Edge>, assignments: Seq<u32>, k: int)
    requires
        0 <= k <= edges.len() <= usize::MAX,
    ensures
        forall|i: int|
            0 <= i < cut_places(edges, assignments, k).len() ==> {
                &&& (#[trigger] cut_places(edges, assignments, k)[i]) < k
                &&& is_cut(edges, assignments, cut_places(edges, assignments, k)[i] as int)
            },
        cut_places(edges, assignments, k).len() > 0 <==> exists|e: int|
            0 <= e < k && #[trigger] is_cut(edges, assignments, e),
    decreases k,
{
    if k > 0 {
        cut_places_are_cut(edges, assignments, k - 1);
        let before = cut_places(edges, assignments, k - 1);
        let after = cut_places(edges, assignments, k);
        if after.len() > 0 {
            if is_cut(edges, assignments, k - 1) {
            } else {
                let e = choose|e: int| 0 <= e < k - 1 && #[trigger] is_cut(edges, assignments, e);
                assert(is_cut(edges, assignments, e));
            }
        }
        if exists|e: int| 0 <= e < k && #[trigger] is_cut(edges, assignments, e) {
            let e = choose|e: int| 0 <= e < k && #[trigger] is_cut(edges, assignments, e);
            if e < k - 1 {
                assert(before.len() > 0);
            }
        }
    }
}

/// The indices of the edges between districts, in order.
pub fn cut_edges(graph: &Graph, partition: &Partition) -> (r: Vec<usize>)
    requires
        graph.sound(),
        partition@.assignments.len() == graph.order(),
    ensures
        r@ == cut_places(graph.edges@, partition@.assignments, graph.edges@.len() as int),
{
    let mut r: Vec<usize> = Vec::new();
    let mut e: usize = 0;
    while e < graph.edges.len()
        invariant
            e <= graph.edges.len(),
            graph.sound(),
            partition@.assignments.len() == graph.order(),
            r@ == cut_places(graph.edges@, partition@.assignments, e as int),
        decreases graph.edges.len() - e,
    {
        let edge: Edge = graph.edges[e];
        assert(graph.edges@[e as int].0 < graph.edges@[e as int].1 < graph.order());
        if partition.assignments[edge.0] != partition.assignments[edge.1] {
            r.push(e);
        }
        e += 1;
    }
    r
}

/// Whether an edge joins two districts.
pub open spec fn adjacent(edges: Seq<Edge>, assignments: Seq<u32>, a: int, b: int) -> bool {
    exists|e: int|
        0 <= e < edges.len() && ((assignments[(#[trigger] edges[e]).0 as int] == a
            && assignments[edges[e].1 as int] == b) || (assignments[edges[e].0 as int] == b
            && assignments[edges[e].1 as int] == a))
}

/// Whether an edge joins two districts.
pub fn are_adjacent(graph: &Graph, partition: &Partition, a: usize, b: usize) -> (r: bool)
    requires
        graph.sound(),
        partition@.assignments.len() == graph.order(),
    ensures
        r == adjacent(graph.edges@, partition@.assignments, a as int, b as int),
{
    let mut e: usize = 0;
    while e < graph.edges.len()
        invariant
            e <= graph.edges.len(),
            graph.sound(),
            partition@.assignments.len() == graph.order(),
            forall|i: int|
                0 <= i < e ==> !((partition@.assignments[(#[trigger] graph.edges@[i]).0 as int] == a
                    && partition@.assignments[graph.edges@[i].1 as int] == b)
                    || (partition@.assignments[graph.edges@[i].0 as int] == b
                    && partition@.assignments[graph.edges@[i].1 as int] == a)),
        decreases graph.edges.len() - e,
    {
        let edge: Edge = graph.edges[e];
        assert(graph.edges@[e as int].0 < graph.edges@[e as int].1 < graph.order());
        let u: usize = partition.assignments[edge.0] as usize;
        let v: usize = partition.assignments[edge.1] as usize;
        if (u == a && v == b) || (u == b && v == a) {
            return true;
        }
        e += 1;
    }
    false
}

/// Whether a variant picks districts by a random cut edge.
pub open spec fn by_cut_edge(variant: RecomVariant) -> bool {
    variant == RecomVariant::CutEdgesUST || variant == RecomVariant::CutEdgesRMST || variant
        == RecomVariant::CutEdgesRegionAware
}

/// Whether two labels that were drawn among all districts make a pair: they
/// differ and an edge joins the districts.
pub fn pair_of_labels(graph: &Graph, partition: &Partition, a: Pick, b: Pick) -> (r: Option<
    (usize, usize),
>)
    requires
        graph.sound(),
        partition@.assignments.len() == graph.order(),
        a.among(partition@.num_dists as nat),
        b.among(partition@.num_dists as nat),
    ensures
        r == (if apart(
            graph.edges@,
            partition@.assignments,
            a.value as int,
            b.value as int,
        ) {
            None
        } else {
            Some((a.value, b.value))
        }),
{
    if a.value != b.value && are_adjacent(graph, partition, a.value, b.value) {
        Some((a.value, b.value))
    } else {
        None
    }
}

/// The districts that a cut edge joins, lower node first.
pub fn pair_of_edge(graph: &Graph, partition: &Partition, e: usize) -> (r: (usize, usize))
    requires
        graph.sound(),
        partition@.assignments.len() == graph.order(),
        e < graph.edges@.len(),
    ensures
        r.0 == partition@.assignments[graph.edges@[e as int].0 as int],
        r.1 == partition@.assignments[graph.edges@[e as int].1 as int],
        adjacent(graph.edges@, partition@.assignments, r.0 as int, r.1 as int),
{
    let edge: Edge = graph.edges[e];
    assert(graph.edges@[e as int].0 < graph.edges@[e as int].1 < graph.order());
    (partition.assignments[edge.0] as usize, partition.assignments[edge.1] as usize)
}

/// Whether two labels make no pair: they are equal, or no edge joins their
/// districts.
pub open spec fn apart(edges: Seq<Edge>, assignments: Seq<u32>, a: int, b: int) -> bool {
    a == b || !adjacent(edges, assignments, a, b)
}

/// Whether a pair of districts is what a generator gives next: the districts of
/// the cut edge that it picks among all, or the two labels that it picks among
/// all, if they make a pair.
pub open spec fn pair_comes(
    graph: &Graph,
    plan: Plan,
    variant: RecomVariant,
    before: SmallRng,
    r: Option<(usize, usize)>,
    after: SmallRng,
) -> bool {
    let cut = cut_places(graph.edges@, plan.assignments, graph.edges@.len() as int);
    if by_cut_edge(variant) {
        if cut.len() == 0 {
            r is None && after == before
        } else {
            exists|pick: Pick|
                {
                    let edge = graph.edges@[cut[pick.value as int] as int];
                    &&& #[trigger] random::picks(before, cut.len() as usize, pick, after)
                    &&& r == Some(
                        (
                            plan.assignments[edge.0 as int] as usize,
                            plan.assignments[edge.1 as int] as usize,
                        ),
                    )
                }
        }
    } else {
        exists|a: Pick, b: Pick, between: SmallRng|
            {
                &&& #[trigger] random::picks(before, plan.num_dists as usize, a, between)
                &&& #[trigger] random::picks(between, plan.num_dists as usize, b, after)
                &&& r == (if apart(
                    graph.edges@,
                    plan.assignments,
                    a.value as int,
                    b.value as int,
                ) {
                    None
                } else {
                    Some((a.value, b.value))
                })
            }
    }
}

/// Draws a pair of adjacent districts: those of a random cut edge, or two
/// random labels, which may fail to make a pair. Drawing by cut edge succeeds
/// where there is a cut edge.
pub fn sample_dist_pair(
    graph: &Graph,
    partition: &Partition,
    variant: RecomVariant,
    rng: &mut SmallRng,
) -> (r: Option<(usize, usize)>)
    requires
        graph.sound(),
        partition@.valid(),
        partition@.assignments.len() == graph.order(),
        partition@.num_dists > 0,
    ensures
        r matches Some((a, b)) ==> {
            &&& a < partition@.num_dists
            &&& b < partition@.num_dists
            &&& a != b
            &&& adjacent(graph.edges@, partition@.assignments, a as int, b as int)
        },
        by_cut_edge(variant) ==> (r is Some <==> exists|e: int|
            0 <= e < graph.edges@.len() && #[trigger] is_cut(
                graph.edges@,
                partition@.assignments,
                e,
            )),
        !by_cut_edge(variant) && r is None ==> exists|a: int, b: int|
            0 <= a < partition@.num_dists && 0 <= b < partition@.num_dists && #[trigger] apart(
                graph.edges@,
                partition@.assignments,
                a,
                b,
            ),
        pair_comes(graph, partition@, variant, *old(rng), r, *final(rng)),
{
    let by_edge: bool = match variant {
        RecomVariant::CutEdgesUST => true,
        RecomVariant::CutEdgesRMST => true,
        RecomVariant::CutEdgesRegionAware => true,
        _ => false,
    };
    if by_edge {
        let cut: Vec<usize> = cut_edges(graph, partition);
        let count: usize = graph.edges.len();
        proof {
            assert(count == graph.edges@.len());
            cut_places_are_cut(graph.edges@, partition@.assignments, graph.edges@.len() as int);
        }
        if cut.len() == 0 {
            return None;
        }
        let pick: Pick = random::draw_below(rng, cut.len());
        let e: usize = *random::chosen(&cut, pick);
        let pair: (usize, usize) = pair_of_edge(graph, partition, e);
        assert(is_cut(graph.edges@, partition@.assignments, e as int));
        assert(random::picks(*old(rng), cut@.len() as usize, pick, *rng));
        Some(pair)
    } else {
        let a: Pick = random::draw_below(rng, partition.num_dists as usize);
        let ghost between = *rng;
        let b: Pick = random::draw_below(rng, partition.num_dists as usize);
        let r: Option<(usize, usize)> = pair_of_labels(graph, partition, a, b);
        assert(random::picks(*old(rng), partition@.num_dists as usize, a, between));
        assert(random::picks(between, partition@.num_dists as usize, b, *rng));
        assert(r is None ==> apart(
            graph.edges@,
            partition@.assignments,
            a.value as int,
            b.value as int,
        ));
        r
    }
}

/// The districts of the first cut edge, if there is one.
pub fn first_pair(graph: &Graph, partition: &Partition) -> (r: Option<(usize, usize)>)
    requires
        graph.sound(),
        partition@.valid(),
        partition@.assignments.len() == graph.order(),
    ensures
        r matches Some((a, b)) ==> {
            &&& a < partition@.num_dists
            &&& b < partition@.num_dists
            &&& a != b
            &&& adjacent(graph.edges@, partition@.assignments, a as int, b as int)
        },
        r is Some <==> exists|e: int|
            0 <= e < graph.edges@.len() && #[trigger] is_cut(
                graph.edges@,
                partition@.assignments,
                e,
            ),
{
    let cut: Vec<usize> = cut_edges(graph, partition);
    let count: usize = graph.edges.len();
    proof {
        assert(count == graph.edges@.len());
        cut_places_are_cut(graph.edges@, partition@.assignments, graph.edges@.len() as int);
    }
    if cut.len() == 0 {
        return None;
    }
    let e: usize = cut[0];
    assert(is_cut(graph.edges@, partition@.assignments, e as int));
    Some(pair_of_edge(graph, partition, e))
}

/// The number of edges below `k` with an end in each list.
pub open spec fn seam(edges: Seq<Edge>, a: Seq<usize>, b: Seq<usize>, k: int) -> nat
    decreases k,
{
    if k <= 0 {
        0
    } else {
        seam(edges, a, b, k - 1) + (if (a.contains(edges[k - 1].0) && b.contains(edges[k - 1].1))
            || (b.contains(edges[k - 1].0) && a.contains(edges[k - 1].1)) {
            1nat
        } else {
            0nat
        })
    }
}

pub(crate) fn mark(nodes: &Vec<usize>, n: usize) -> (r: Vec<bool>)
    requires
        forall|i: int| 0 <= i < nodes.len() ==> (#[trigger] nodes[i]) < n,
    ensures
        r.len() == n,
        forall|v: usize| #![trigger nodes@.contains(v)] v < n ==> r[v as int] == nodes@.contains(v),
{
    let mut r: Vec<bool> = Vec::new();
    let mut k: usize = 0;
    while k < n
        invariant
            k <= n,
            r.len() == k,
            forall|v: int| 0 <= v < k ==> !#[trigger] r[v],
        decreases n - k,
    {
        r.push(false);
        k += 1;
    }
    let mut i: usize = 0;
    while i < nodes.len()
        invariant
            i <= nodes.len(),
            r.len() == n,
            forall|j: int| 0 <= j < nodes.len() ==> (#[trigger] nodes[j]) < n,
            forall|v: int| 0 <= v < n && #[trigger] r[v] ==> nodes@.contains(v as usize),
            forall|j: int| 0 <= j < i ==> r[(#[trigger] nodes[j]) as int],
        decreases nodes.len() - i,
    {
        assert(nodes@.contains(nodes@[i as int]));
        r.set(nodes[i], true);
        i += 1;
    }
    assert forall|v: usize| #![trigger nodes@.contains(v)] v < n implies r[v as int]
        == nodes@.contains(v) by {
        if nodes@.contains(v) {
            let j = choose|j: int| 0 <= j < nodes@.len() && nodes@[j] == v;
            assert(r[nodes[j] as int]);
        }
    }
    r
}

impl RecomProposal {
    /// The number of edges between the two districts of the proposal.
    pub fn seam_length(&self, graph: &Graph) -> (r: usize)
        requires
            graph.sound(),
            forall|i: int| 0 <= i < self.a_nodes.len() ==> (#[trigger] self.a_nodes[i])
                < graph.order(),
            forall|i: int| 0 <= i < self.b_nodes.len() ==> (#[trigger] self.b_nodes[i])
                < graph.order(),
        ensures
            r == seam(graph.edges@, self.a_nodes@, self.b_nodes@, graph.edges@.len() as int),
            r <= graph.edges@.len(),
    {
        let in_a: Vec<bool> = mark(&self.a_nodes, graph.pops.len());
        let in_b: Vec<bool> = mark(&self.b_nodes, graph.pops.len());
        let mut count: usize = 0;
        let mut e: usize = 0;
        while e < graph.edges.len()
            invariant
                e <= graph.edges.len(),
                count <= e,
                graph.sound(),
                in_a.len() == graph.order(),
                in_b.len() == graph.order(),
                forall|v: usize|
                    #![trigger self.a_nodes@.contains(v)]
                    v < graph.order() ==> in_a[v as int] == self.a_nodes@.contains(v),
                forall|v: usize|
                    #![trigger self.b_nodes@.contains(v)]
                    v < graph.order() ==> in_b[v as int] == self.b_nodes@.contains(v),
                count == seam(graph.edges@, self.a_nodes@, self.b_nodes@, e as int),
            decreases graph.edges.len() - e,
        {
            let edge: Edge = graph.edges[e];
            assert(graph.edges@[e as int].0 < graph.edges@[e as int].1 < graph.order());
            if (in_a[edge.0] && in_b[edge.1]) || (in_b[edge.0] && in_a[edge.1]) {
                count += 1;
            }
            e += 1;
        }
        count
    }
}

/// The edges with one end in each of two districts.
pub open spec fn between_districts(edges: Seq<Edge>, assignments: Seq<u32>, a: int, b: int) -> Set<
    int,
> {
    Set::new(
        |e: int|
            0 <= e < edges.len() && ((assignments[edges[e].0 as int] == a
                && assignments[edges[e].1 as int] == b) || (assignments[edges[e].0 as int] == b
                && assignments[edges[e].1 as int] == a)),
    )
}

/// The seam length of a redrawing is the number of edges between the two
/// districts of the plan that it leads to, whichever of them comes first.
pub proof fn seams_join_the_redrawn_districts(edges: Seq<Edge>, plan: Plan, p: Redraw)
    requires
        plan.valid(),
        plan.admits(p),
        plan.assignments.len() <= usize::MAX,
        forall|e: int|
            0 <= e < edges.len() ==> (#[trigger] edges[e]).0 < plan.assignments.len()
                && edges[e].1 < plan.assignments.len(),
    ensures
        ({
            let between = between_districts(
                edges,
                plan.redrawn(p).assignments,
                p.a_label as int,
                p.b_label as int,
            );
            &&& between.finite()
            &&& seam(edges, p.a_nodes, p.b_nodes, edges.len() as int) == between.len()
            &&& seam(edges, p.b_nodes, p.a_nodes, edges.len() as int) == between.len()
        }),
    decreases edges.len(),
{
    let n = edges.len() as int;
    let labels = plan.redrawn(p).assignments;
    let a = p.a_label as int;
    let b = p.b_label as int;
    if n == 0 {
        assert(between_districts(edges, labels, a, b) =~= Set::<int>::empty());
    } else {
        let init = edges.drop_last();
        assert forall|e: int| 0 <= e < init.len() implies (#[trigger] init[e]).0
            < plan.assignments.len() && init[e].1 < plan.assignments.len() by {
            assert(init[e] == edges[e]);
        }
        seams_join_the_redrawn_districts(init, plan, p);
        fewer_edges_have_the_same_seam(edges, p.a_nodes, p.b_nodes, n - 1);
        fewer_edges_have_the_same_seam(edges, p.b_nodes, p.a_nodes, n - 1);
        let last = edges[n - 1];
        assert(last.0 < plan.assignments.len() && last.1 < plan.assignments.len());
        crate::partition::redrawing_moves_two_districts_only(plan, p, last.0 as int, a);
        crate::partition::redrawing_moves_two_districts_only(plan, p, last.1 as int, a);
        let before = between_districts(init, labels, a, b);
        if (labels[last.0 as int] == a && labels[last.1 as int] == b) || (labels[last.0 as int]
            == b && labels[last.1 as int] == a) {
            assert(between_districts(edges, labels, a, b) =~= before.insert(n - 1));
        } else {
            assert(between_districts(edges, labels, a, b) =~= before);
        }
    }
}

proof fn fewer_edges_have_the_same_seam(edges: Seq<Edge>, a: Seq<usize>, b: Seq<usize>, k: int)
    requires
        0 <= k < edges.len(),
    ensures
        seam(edges.drop_last(), a, b, k) == seam(edges, a, b, k),
    decreases k,
{
    if k > 0 {
        fewer_edges_have_the_same_seam(edges, a, b, k - 1);
        assert(edges.drop_last()[k - 1] == edges[k - 1]);
    }
}

} // verus!
