//! Spanning trees by random edge weights with surcharges.

use rand::rngs::SmallRng;
use vstd::prelude::*;
use crate::double::{Arithmetic, Double, Op};
use crate::graph::{Edge, Graph};
use crate::samplers::SpanningTreeSampler;
use crate::spanning_tree::{greedy_spanning_tree, SpanningTreeBuffer, SpanningTreeError};
use crate::{columns, connectivity, double, graph, random, samplers, sorting, spanning_tree};

verus! {

/// Whether an edge between nodes in these regions leaves a region: so it does
/// where either region is missing or they differ.
pub open spec fn leaves_region(a: Seq<char>, b: Seq<char>) -> bool {
    a == "null"@ || a.len() == 0 || b == "null"@ || b.len() == 0 || a != b
}

fn crosses(a: &String, b: &String) -> (r: bool)
    ensures
        r == leaves_region(a@, b@),
{
    let n: usize = a.as_str().unicode_len();
    let m: usize = b.as_str().unicode_len();
    columns::string_eq(a, "null") || n == 0 || columns::string_eq(b, "null") || m == 0
        || !columns::string_eq(a, b.as_str())
}

/// The place of an edge in a list that holds it.
pub open spec fn edge_place(edges: Seq<Edge>, e: Edge) -> int {
    choose|i: int| 0 <= i < edges.len() && edges[i] == e
}

/// The edge between two nodes, lower node first.
pub open spec fn edge_between(u: usize, v: usize) -> Edge {
    if u < v {
        Edge(u, v)
    } else {
        Edge(v, u)
    }
}

/// Draws trees that take the lightest edges, where an edge weighs a random
/// number, the surcharge of each region that it leaves, and the values of edge
/// attributes.
pub struct RegionAwareSampler<F> {
    region_weights: Vec<(String, Double)>,
    edge_weight_keys: Vec<String>,
    arithmetic: Arithmetic<F>,
    capacity: usize,
}

impl<F: Fn(Op, Double, Double) -> Double> RegionAwareSampler<F> {
    pub closed spec fn regions(&self) -> Seq<(String, Double)> {
        self.region_weights@
    }

    pub closed spec fn keys(&self) -> Seq<String> {
        self.edge_weight_keys@
    }

    pub closed spec fn numbers(&self) -> Arithmetic<F> {
        self.arithmetic
    }

    /// A sampler for graphs with about `n` nodes.
    pub fn new(
        n: usize,
        region_weights: Vec<(String, Double)>,
        edge_weight_keys: Vec<String>,
        arithmetic: Arithmetic<F>,
    ) -> (r: RegionAwareSampler<F>)
        requires
            8 * n <= usize::MAX,
        ensures
            r.regions() == region_weights@,
            r.keys() == edge_weight_keys@,
            r.numbers() == arithmetic,
    {
        RegionAwareSampler { region_weights, edge_weight_keys, arithmetic, capacity: 8 * n }
    }

    /// The attributes that weights read are there, one for each node or edge
    /// of the source, and `indices` leads into it.
    pub open spec fn reads(&self, graph: &Graph, source: &Graph, indices: Seq<usize>) -> bool {
        &&& self.numbers().valid()
        &&& source.sound()
        &&& indices.len() >= graph.order()
        &&& forall|i: int| 0 <= i < indices.len() ==> (#[trigger] indices[i]) < source.order()
        &&& forall|k: int|
            0 <= k < self.regions().len() ==> {
                &&& source.attr@.contains_key((#[trigger] self.regions()[k]).0@)
                &&& source.attr@[self.regions()[k].0@].len() == source.order()
            }
        &&& forall|k: int|
            0 <= k < self.keys().len() ==> {
                &&& source.edge_attr@.contains_key((#[trigger] self.keys()[k])@)
                &&& source.edge_attr@[self.keys()[k]@].len() == source.edges@.len()
            }
    }

    /// A weight with the surcharges of the first `k` regions for an edge
    /// between two nodes of the source.
    pub open spec fn surcharged(
        &self,
        base: Double,
        source: &Graph,
        u: usize,
        v: usize,
        k: int,
    ) -> Double
        decreases k,
    {
        if k <= 0 {
            base
        } else {
            let w = self.surcharged(base, source, u, v, k - 1);
            let (name, charge) = self.regions()[k - 1];
            let column = source.attr@[name@];
            if leaves_region(column[u as int]@, column[v as int]@) {
                self.numbers().sum(w, charge)
            } else {
                w
            }
        }
    }

    /// A weight with the values of the first `k` edge attributes; an edge that
    /// the source lacks has none.
    pub open spec fn attributed(
        &self,
        base: Double,
        source: &Graph,
        u: usize,
        v: usize,
        k: int,
    ) -> Double
        decreases k,
    {
        if k <= 0 {
            base
        } else {
            let w = self.attributed(base, source, u, v, k - 1);
            let e = edge_between(u, v);
            if source.edges@.contains(e) {
                self.numbers().sum(
                    w,
                    source.edge_attr@[self.keys()[k - 1]@][edge_place(source.edges@, e)],
                )
            } else {
                w
            }
        }
    }

    /// The weight of an edge: its random number, then surcharges, then edge
    /// attributes.
    pub open spec fn weight(
        &self,
        base: Double,
        source: &Graph,
        indices: Seq<usize>,
        e: Edge,
    ) -> Double {
        let u = indices[e.0 as int];
        let v = indices[e.1 as int];
        self.attributed(
            self.surcharged(base, source, u, v, self.regions().len() as int),
            source,
            u,
            v,
            self.keys().len() as int,
        )
    }

    /// Whether an edge has this weight over some random number.
    pub open spec fn may_weigh(
        &self,
        source: &Graph,
        indices: Seq<usize>,
        e: Edge,
        w: Double,
    ) -> bool {
        exists|bits: u64|
            w == #[trigger] self.weight(self.numbers().unit_of(bits), source, indices, e)
    }

    /// Whether these are weights of a graph's edges, each over some random
    /// number.
    pub open spec fn weighs(
        &self,
        graph: &Graph,
        source: &Graph,
        indices: Seq<usize>,
        weights: Seq<Double>,
    ) -> bool {
        &&& weights.len() == graph.edges@.len()
        &&& forall|i: int|
            0 <= i < weights.len() ==> self.may_weigh(
                source,
                indices,
                graph.edges@[i],
                #[trigger] weights[i],
            )
    }

    /// Whether a tree takes the lightest edges of a graph, for weights over some
    /// random numbers.
    pub open spec fn may_take(
        &self,
        graph: &Graph,
        source: &Graph,
        indices: Seq<usize>,
        tree: Seq<Edge>,
    ) -> bool {
        exists|weights: Seq<Double>|
            {
                &&& #[trigger] self.weighs(graph, source, indices, weights)
                &&& forall|i: int| 0 <= i < weights.len() ==> !(#[trigger] weights[i]).nan()
                &&& takes_lightest(graph.edges@, weights, tree)
            }
    }

    /// Whether a buffer holds a spanning tree of a graph that takes the
    /// lightest edges.
    pub open spec fn drew(
        &self,
        graph: &Graph,
        source: &Graph,
        indices: Seq<usize>,
        buf: SpanningTreeBuffer,
    ) -> bool {
        exists|tree: Seq<Edge>|
            {
                &&& #[trigger] spanning_tree::spans(tree, graph.order())
                &&& buf.holds(tree)
                &&& samplers::drawn_from(tree, graph.edges@)
                &&& self.may_take(graph, source, indices, tree)
            }
    }

    /// The weights of a graph's edges over the numbers that random bits stand
    /// for.
    pub open spec fn weights_by(
        &self,
        graph: &Graph,
        source: &Graph,
        indices: Seq<usize>,
        bits: Seq<u64>,
    ) -> Seq<Double> {
        Seq::new(
            bits.len(),
            |i: int|
                self.weight(self.numbers().unit_of(bits[i]), source, indices, graph.edges@[i]),
        )
    }

    /// Whether a tree is what a generator gives next: its next bits, one after
    /// the other, weigh the edges, and the tree takes the lightest.
    pub open spec fn tree_comes(
        &self,
        graph: &Graph,
        source: &Graph,
        indices: Seq<usize>,
        before: SmallRng,
        tree: Seq<Edge>,
        after: SmallRng,
    ) -> bool {
        exists|bits: Seq<u64>|
            {
                &&& #[trigger] random::gives_all(before, bits, after)
                &&& bits.len() == graph.edges@.len()
                &&& takes_lightest(
                    graph.edges@,
                    self.weights_by(graph, source, indices, bits),
                    tree,
                )
            }
    }

    /// Whether a random number gives an edge a weight that is no number.
    pub open spec fn weighs_no_number(
        &self,
        graph: &Graph,
        source: &Graph,
        indices: Seq<usize>,
    ) -> bool {
        exists|bits: u64, i: int|
            0 <= i < graph.edges@.len() && (#[trigger] self.weight(
                self.numbers().unit_of(bits),
                source,
                indices,
                graph.edges@[i],
            )).nan()
    }

    /// Why the edges of a graph do not make a tree by weight.
    pub open spec fn weights_fail(
        &self,
        graph: &Graph,
        source: &Graph,
        indices: Seq<usize>,
        e: SpanningTreeError,
    ) -> bool {
        match e {
            SpanningTreeError::Disconnected { .. } => spanning_tree::lacks_edges(graph, e)
                && !connectivity::all_connected(graph.edges@, graph.order() as int),
            SpanningTreeError::Unordered => self.weighs_no_number(graph, source, indices),
        }
    }

    fn add_surcharges(&self, base: Double, source: &Graph, u: usize, v: usize) -> (r: Double)
        requires
            self.numbers().valid(),
            source.sound(),
            u < source.order(),
            v < source.order(),
            forall|k: int|
                0 <= k < self.regions().len() ==> {
                    &&& source.attr@.contains_key((#[trigger] self.regions()[k]).0@)
                    &&& source.attr@[self.regions()[k].0@].len() == source.order()
                },
        ensures
            r == self.surcharged(base, source, u, v, self.regions().len() as int),
    {
        let mut w: Double = base;
        let mut k: usize = 0;
        while k < self.region_weights.len()
            invariant
                k <= self.region_weights.len(),
                self.numbers().valid(),
                source.sound(),
                u < source.order(),
                v < source.order(),
                forall|j: int|
                    0 <= j < self.regions().len() ==> {
                        &&& source.attr@.contains_key((#[trigger] self.regions()[j]).0@)
                        &&& source.attr@[self.regions()[j].0@].len() == source.order()
                    },
                w == self.surcharged(base, source, u, v, k as int),
            decreases self.region_weights.len() - k,
        {
            assert(self.regions()[k as int] == self.region_weights[k as int]);
            if let Some(column) = source.attr.get(self.region_weights[k].0.as_str()) {
                if crosses(&column[u], &column[v]) {
                    w = self.arithmetic.plus(w, self.region_weights[k].1);
                }
            }
            k += 1;
        }
        w
    }

    fn add_attributes(&self, base: Double, source: &Graph, u: usize, v: usize) -> (r: Double)
        requires
            self.numbers().valid(),
            source.sound(),
            u < source.order(),
            v < source.order(),
            forall|k: int|
                0 <= k < self.keys().len() ==> {
                    &&& source.edge_attr@.contains_key((#[trigger] self.keys()[k])@)
                    &&& source.edge_attr@[self.keys()[k]@].len() == source.edges@.len()
                },
        ensures
            r == self.attributed(base, source, u, v, self.keys().len() as int),
    {
        let (low, high): (usize, usize) = if u < v {
            (u, v)
        } else {
            (v, u)
        };
        let found: Option<usize> = source.find_edge(low, high);
        let ghost e = edge_between(u, v);
        proof {
            if let Some(p) = found {
                assert(source.edges@[p as int] == e);
                let q = edge_place(source.edges@, e);
                assert(0 <= q < source.edges@.len() && source.edges@[q] == e);
                if q < p {
                    assert(source.edges@[q].0 == source.edges@[p as int].0);
                }
                if p < q {
                    assert(source.edges@[q].0 == source.edges@[p as int].0);
                }
            }
        }
        let mut w: Double = base;
        let mut k: usize = 0;
        while k < self.edge_weight_keys.len()
            invariant
                k <= self.edge_weight_keys.len(),
                self.numbers().valid(),
                source.sound(),
                e == edge_between(u, v),
                found is Some <==> source.edges@.contains(e),
                found matches Some(p) ==> p < source.edges@.len() && p == edge_place(
                    source.edges@,
                    e,
                ),
                forall|j: int|
                    0 <= j < self.keys().len() ==> {
                        &&& source.edge_attr@.contains_key((#[trigger] self.keys()[j])@)
                        &&& source.edge_attr@[self.keys()[j]@].len() == source.edges@.len()
                    },
                w == self.attributed(base, source, u, v, k as int),
            decreases self.edge_weight_keys.len() - k,
        {
            assert(self.keys()[k as int] == self.edge_weight_keys[k as int]);
            if let Some(values) = source.edge_attr.get(self.edge_weight_keys[k].as_str()) {
                if let Some(p) = found {
                    w = self.arithmetic.plus(w, values[p]);
                }
            }
            k += 1;
        }
        w
    }

    /// The weights of a graph's edges over the given random numbers.
    pub fn edge_weights(
        &self,
        graph: &Graph,
        source: &Graph,
        indices: &Vec<usize>,
        base: &Vec<Double>,
    ) -> (r: Vec<Double>)
        requires
            graph.sound(),
            self.reads(graph, source, indices@),
            base.len() == graph.edges.len(),
        ensures
            r.len() == graph.edges.len(),
            forall|i: int|
                0 <= i < r.len() ==> (#[trigger] r[i]) == self.weight(
                    base[i],
                    source,
                    indices@,
                    graph.edges[i],
                ),
    {
        let mut r: Vec<Double> = Vec::new();
        let mut i: usize = 0;
        while i < graph.edges.len()
            invariant
                i <= graph.edges.len(),
                r.len() == i,
                graph.sound(),
                self.reads(graph, source, indices@),
                base.len() == graph.edges.len(),
                forall|j: int|
                    0 <= j < i ==> (#[trigger] r[j]) == self.weight(
                        base[j],
                        source,
                        indices@,
                        graph.edges[j],
                    ),
            decreases graph.edges.len() - i,
        {
            let e: Edge = graph.edges[i];
            let u: usize = indices[e.0];
            let v: usize = indices[e.1];
            let charged: Double = self.add_surcharges(base[i], source, u, v);
            r.push(self.add_attributes(charged, source, u, v));
            i += 1;
        }
        r
    }

    /// Draws the random numbers of the edges, weighs them and takes the edges
    /// by weight.
    fn sample_with_attr_source(
        &mut self,
        graph: &Graph,
        attr_source: &Graph,
        attr_indices: &Vec<usize>,
        buf: &mut SpanningTreeBuffer,
        rng: &mut SmallRng,
    ) -> (r: Result<(), SpanningTreeError>)
        requires
            graph.sound(),
            graph.order() > 0,
            old(buf).st.len() >= graph.order(),
            old(self).reads(graph, attr_source, attr_indices@),
        ensures
            *final(self) == *old(self),
            final(buf).st.len() == old(buf).st.len(),
            r is Ok ==> connectivity::all_connected(graph.edges@, graph.order() as int),
            r is Ok ==> old(self).drew(graph, attr_source, attr_indices@, *final(buf)),
            r is Ok ==> exists|tree: Seq<Edge>|
                {
                    &&& #[trigger] spanning_tree::spans(tree, graph.order())
                    &&& final(buf).holds(tree)
                    &&& samplers::drawn_from(tree, graph.edges@)
                    &&& old(self).may_take(graph, attr_source, attr_indices@, tree)
                    &&& old(self).tree_comes(
                        graph,
                        attr_source,
                        attr_indices@,
                        *old(rng),
                        tree,
                        *final(rng),
                    )
                },
            r matches Err(e) ==> old(self).weights_fail(graph, attr_source, attr_indices@, e),
    {
        let mut base: Vec<Double> = Vec::with_capacity(self.capacity);
        let ghost mut given: Seq<u64> = Seq::empty();
        let mut i: usize = 0;
        while i < graph.edges.len()
            invariant
                i <= graph.edges.len(),
                base.len() == i,
                self.numbers().valid(),
                given.len() == i,
                random::gives_all(*old(rng), given, *rng),
                forall|j: int|
                    0 <= j < i ==> (#[trigger] base[j]) == self.numbers().unit_of(given[j]),
                forall|j: int|
                    0 <= j < i ==> exists|bits: u64|
                        #![trigger self.numbers().unit_of(bits)]
                        (#[trigger] base[j]) == self.numbers().unit_of(bits),
            decreases graph.edges.len() - i,
        {
            let ghost between = *rng;
            let drawn: u64 = random::draw_bits(rng);
            base.push(self.arithmetic.unit(drawn));
            proof {
                let more = given.push(drawn);
                assert(more.drop_last() =~= given);
                assert(random::gives(between, more.last(), *rng));
                given = more;
            }
            assert(base[i as int] == self.numbers().unit_of(drawn));
            i += 1;
        }
        let weights: Vec<Double> = self.edge_weights(graph, attr_source, attr_indices, &base);
        proof {
            assert forall|i: int| 0 <= i < weights.len() && (#[trigger] weights[i]).nan() implies
                self.weighs_no_number(graph, attr_source, attr_indices@) by {
                let bits = choose|bits: u64|
                    #![trigger self.numbers().unit_of(bits)]
                    base[i] == self.numbers().unit_of(bits);
                assert(self.weight(
                    self.numbers().unit_of(bits),
                    attr_source,
                    attr_indices@,
                    graph.edges@[i],
                ).nan());
            }
            assert forall|i: int| 0 <= i < weights.len() implies self.may_weigh(
                attr_source,
                attr_indices@,
                graph.edges@[i],
                #[trigger] weights@[i],
            ) by {
                let bits = choose|bits: u64|
                    #![trigger self.numbers().unit_of(bits)]
                    base[i] == self.numbers().unit_of(bits);
                assert(self.weight(
                    self.numbers().unit_of(bits),
                    attr_source,
                    attr_indices@,
                    graph.edges@[i],
                ) == weights[i]);
            }
            assert(self.weighs(graph, attr_source, attr_indices@, weights@));
            assert(weights@ =~= self.weights_by(graph, attr_source, attr_indices@, given));
        }
        let r: Result<(), SpanningTreeError> = lightest_tree(graph, &weights, buf);
        proof {
            if r is Ok {
                let tree = choose|tree: Seq<Edge>|
                    {
                        &&& #[trigger] takes_lightest(graph.edges@, weights@, tree)
                        &&& spanning_tree::spans(tree, graph.order())
                        &&& samplers::drawn_from(tree, graph.edges@)
                        &&& buf.holds(tree)
                    };
                assert(spanning_tree::spans(tree, graph.order()));
                assert(self.tree_comes(
                    graph,
                    attr_source,
                    attr_indices@,
                    *old(rng),
                    tree,
                    *rng,
                ));
            }
        }
        r
    }

    /// Draws a tree, reading node attributes from the graph itself.
    pub fn random_spanning_tree(
        &mut self,
        graph: &Graph,
        buf: &mut SpanningTreeBuffer,
        rng: &mut SmallRng,
    ) -> (r: Result<(), SpanningTreeError>)
        requires
            graph.sound(),
            graph.order() > 0,
            old(buf).st.len() >= graph.order(),
            old(self).reads(graph, graph, identity(graph.order())),
        ensures
            *final(self) == *old(self),
            final(buf).st.len() == old(buf).st.len(),
            r is Ok ==> connectivity::all_connected(graph.edges@, graph.order() as int),
            r is Ok ==> old(self).drew(graph, graph, identity(graph.order()), *final(buf)),
            r is Ok ==> exists|tree: Seq<Edge>|
                {
                    &&& #[trigger] spanning_tree::spans(tree, graph.order())
                    &&& final(buf).holds(tree)
                    &&& samplers::drawn_from(tree, graph.edges@)
                    &&& old(self).may_take(graph, graph, identity(graph.order()), tree)
                    &&& old(self).tree_comes(
                        graph,
                        graph,
                        identity(graph.order()),
                        *old(rng),
                        tree,
                        *final(rng),
                    )
                },
            r matches Err(e) ==> old(self).weights_fail(
                graph,
                graph,
                identity(graph.order()),
                e,
            ),
    {
        let n: usize = graph.pops.len();
        let mut all: Vec<usize> = Vec::new();
        let mut i: usize = 0;
        while i < n
            invariant
                i <= n,
                all.len() == i,
                forall|j: int| 0 <= j < i ==> (#[trigger] all[j]) == j,
            decreases n - i,
        {
            all.push(i);
            i += 1;
        }
        assert(all@ =~= identity(graph.order()));
        self.sample_with_attr_source(graph, graph, &all, buf, rng)
    }
}

/// The numbers below `n` in order.
pub open spec fn identity(n: nat) -> Seq<usize> {
    Seq::new(n, |i: int| i as usize)
}

/// The edges in the given order of places.
pub open spec fn arranged(edges: Seq<Edge>, places: Seq<usize>) -> Seq<Edge> {
    Seq::new(places.len(), |i: int| edges[places[i] as int])
}

/// The keys by which weights are ordered.
pub open spec fn weight_keys(weights: Seq<Double>) -> Seq<u64> {
    Seq::new(weights.len(), |i: int| (double::SIGN + weights[i].position()) as u64)
}

/// Whether a tree is what remains of the edges where each is left out that
/// edges before it already bridge, from the lightest to the heaviest, equal
/// weights in the order of the edges.
pub open spec fn takes_lightest(edges: Seq<Edge>, weights: Seq<Double>, tree: Seq<Edge>) -> bool {
    exists|places: Seq<usize>| #[trigger]
        sorting::stable_order_of(weight_keys(weights), places) && tree == connectivity::taken(
            arranged(edges, places),
            places.len() as int,
        )
}

proof fn lighter_edges_come_first(weights: Seq<Double>, places: Seq<usize>, j: int, k: int)
    requires
        sorting::stable_order_of(weight_keys(weights), places),
        0 <= j < places.len(),
        0 <= k < places.len(),
        forall|i: int| 0 <= i < weights.len() ==> !(#[trigger] weights[i]).nan(),
    ensures
        places[j] < weights.len(),
        places[k] < weights.len(),
        j <= k ==> weights[places[j] as int].at_most(weights[places[k] as int]),
        weights[places[j] as int].below(weights[places[k] as int]) ==> j < k,
{
    assert(places.contains(places[j]));
    assert(places.contains(places[k]));
    let keys = weight_keys(weights);
    assert(keys[places[j] as int] == double::SIGN + weights[places[j] as int].position());
    assert(keys[places[k] as int] == double::SIGN + weights[places[k] as int].position());
    if j < k {
        assert(sorting::precedes(keys, places[j], places[k]));
    }
    if k < j {
        assert(sorting::precedes(keys, places[k], places[j]));
    }
}

/// There is one tree of the lightest edges for given weights.
pub proof fn lightest_tree_is_unique(
    edges: Seq<Edge>,
    weights: Seq<Double>,
    a: Seq<Edge>,
    b: Seq<Edge>,
)
    requires
        takes_lightest(edges, weights, a),
        takes_lightest(edges, weights, b),
    ensures
        a == b,
{
    let p = choose|places: Seq<usize>| #[trigger]
        sorting::stable_order_of(weight_keys(weights), places) && a == connectivity::taken(
            arranged(edges, places),
            places.len() as int,
        );
    let q = choose|places: Seq<usize>| #[trigger]
        sorting::stable_order_of(weight_keys(weights), places) && b == connectivity::taken(
            arranged(edges, places),
            places.len() as int,
        );
    sorting::stable_order_is_unique(weight_keys(weights), p, q);
}

proof fn taken_grows(order: Seq<Edge>, j: int, k: int, e: Edge)
    requires
        0 <= j <= k,
        connectivity::taken(order, j).contains(e),
    ensures
        connectivity::taken(order, k).contains(e),
    decreases k,
{
    if j < k {
        taken_grows(order, j, k - 1, e);
        let before = connectivity::taken(order, k - 1);
        let p = choose|p: int| 0 <= p < before.len() && before[p] == e;
        assert(before.push(order[k - 1])[p] == e);
    }
}

proof fn taken_at(order: Seq<Edge>, k: int, e: Edge) -> (j: int)
    requires
        0 <= k <= order.len(),
        connectivity::taken(order, k).contains(e),
    ensures
        0 <= j < k,
        order[j] == e,
        !connectivity::connected(connectivity::taken(order, j), e.0 as int, e.1 as int),
    decreases k,
{
    if k <= 0 {
        0
    } else {
        let before = connectivity::taken(order, k - 1);
        if before.contains(e) {
            taken_at(order, k - 1, e)
        } else {
            let p = choose|p: int|
                0 <= p < connectivity::taken(order, k).len() && connectivity::taken(order, k)[p]
                    == e;
            if p < before.len() {
                assert(before[p] == e);
            }
            k - 1
        }
    }
}

/// An edge stays out of the tree only where edges of the tree that are no
/// heavier join its ends.
pub proof fn left_out_edge_is_bridged_by_lighter_ones(
    edges: Seq<Edge>,
    weights: Seq<Double>,
    tree: Seq<Edge>,
    i: int,
)
    requires
        takes_lightest(edges, weights, tree),
        weights.len() == edges.len() <= usize::MAX,
        forall|j: int| 0 <= j < weights.len() ==> !(#[trigger] weights[j]).nan(),
        0 <= i < edges.len(),
        !tree.contains(edges[i]),
    ensures
        exists|lighter: Seq<Edge>|
            {
                &&& #[trigger] connectivity::connected(
                    lighter,
                    edges[i].0 as int,
                    edges[i].1 as int,
                )
                &&& forall|j: int|
                    0 <= j < lighter.len() ==> tree.contains(#[trigger] lighter[j]) && exists|m: int|
                        0 <= m < edges.len() && edges[m] == lighter[j] && (
                        #[trigger] weights[m]).at_most(weights[i])
            },
{
    let places = choose|places: Seq<usize>| #[trigger]
        sorting::stable_order_of(weight_keys(weights), places) && tree == connectivity::taken(
            arranged(edges, places),
            places.len() as int,
        );
    let order = arranged(edges, places);
    assert(places.contains(i as usize));
    let k = choose|k: int| 0 <= k < places.len() && places[k] == i as usize;
    assert(order[k] == edges[i]);
    let lighter = connectivity::taken(order, k);
    if !connectivity::connected(lighter, edges[i].0 as int, edges[i].1 as int) {
        let grown = connectivity::taken(order, k + 1);
        assert(grown.last() == edges[i]);
        assert(grown.contains(edges[i]));
        taken_grows(order, k + 1, places.len() as int, edges[i]);
    }
    assert forall|j: int| 0 <= j < lighter.len() implies tree.contains(#[trigger] lighter[j])
        && exists|m: int|
        0 <= m < edges.len() && edges[m] == lighter[j] && (#[trigger] weights[m]).at_most(
            weights[i],
        ) by {
        assert(lighter.contains(lighter[j]));
        taken_grows(order, k, places.len() as int, lighter[j]);
        let l = taken_at(order, k, lighter[j]);
        lighter_edges_come_first(weights, places, l, k);
        let m = places[l] as int;
        assert(edges[m] == lighter[j]);
        assert(weights[m].at_most(weights[i]));
    }
}

/// An edge whose ends are joined by strictly lighter edges is not in the tree.
pub proof fn heavier_edge_stays_out(
    edges: Seq<Edge>,
    weights: Seq<Double>,
    tree: Seq<Edge>,
    i: int,
    lighter: Seq<Edge>,
)
    requires
        takes_lightest(edges, weights, tree),
        weights.len() == edges.len() <= usize::MAX,
        forall|j: int| 0 <= j < weights.len() ==> !(#[trigger] weights[j]).nan(),
        graph::edges_ascend(edges),
        0 <= i < edges.len(),
        connectivity::connected(lighter, edges[i].0 as int, edges[i].1 as int),
        forall|j: int|
            0 <= j < lighter.len() ==> exists|m: int|
                0 <= m < edges.len() && edges[m] == #[trigger] lighter[j] && (
                #[trigger] weights[m]).below(weights[i]),
    ensures
        !tree.contains(edges[i]),
{
    let places = choose|places: Seq<usize>| #[trigger]
        sorting::stable_order_of(weight_keys(weights), places) && tree == connectivity::taken(
            arranged(edges, places),
            places.len() as int,
        );
    let order = arranged(edges, places);
    if tree.contains(edges[i]) {
        let k = taken_at(order, places.len() as int, edges[i]);
        lighter_edges_come_first(weights, places, k, k);
        let p = places[k] as int;
        assert(edges[p] == edges[i]);
        assert(p == i) by {
            if p < i {
                assert(edges[p].0 == edges[i].0);
            }
            if i < p {
                assert(edges[i].0 == edges[p].0);
            }
        }
        let early = order.take(k);
        assert forall|x: int, y: int| #[trigger] graph::joined(lighter, x, y) implies connectivity::connected(
            early,
            x,
            y,
        ) by {
            let j = choose|j: int|
                0 <= j < lighter.len() && (((#[trigger] lighter[j]).0 == x && lighter[j].1 == y)
                    || (lighter[j].0 == y && lighter[j].1 == x));
            let m = choose|m: int|
                0 <= m < edges.len() && edges[m] == lighter[j] && (#[trigger] weights[m]).below(
                    weights[i],
                );
            assert(places.contains(m as usize));
            let l = choose|l: int| 0 <= l < places.len() && places[l] == m as usize;
            lighter_edges_come_first(weights, places, l, k);
            assert(early[l] == lighter[j]);
            connectivity::joined_is_connected(early, x, y);
        }
        connectivity::connected_through_more(
            lighter,
            early,
            edges[i].0 as int,
            edges[i].1 as int,
        );
        connectivity::taken_connects_alike(order, k, edges[i].0 as int, edges[i].1 as int);
    }
}

/// Takes a graph's edges from the lightest to the heaviest, equal weights in
/// the order of the edges. Fails where a weight is no number or the graph is
/// not connected.
pub fn lightest_tree(graph: &Graph, weights: &Vec<Double>, buf: &mut SpanningTreeBuffer) -> (r:
    Result<(), SpanningTreeError>)
    requires
        graph.sound(),
        graph.order() > 0,
        old(buf).st.len() >= graph.order(),
        weights.len() == graph.edges.len(),
    ensures
        final(buf).st.len() == old(buf).st.len(),
        r is Ok <==> connectivity::all_connected(graph.edges@, graph.order() as int) && forall|i: int|
            0 <= i < weights.len() ==> !(#[trigger] weights[i]).nan(),
        r matches Err(e) ==> if exists|i: int| 0 <= i < weights.len() && (#[trigger] weights[i]).nan() {
            e is Unordered
        } else {
            spanning_tree::lacks_edges(graph, e)
        },
        r is Ok ==> exists|tree: Seq<Edge>|
            {
                &&& #[trigger] takes_lightest(graph.edges@, weights@, tree)
                &&& spanning_tree::spans(tree, graph.order())
                &&& samplers::drawn_from(tree, graph.edges@)
                &&& final(buf).holds(tree)
            },
{
    let mut keys: Vec<u64> = Vec::new();
    let mut i: usize = 0;
    while i < weights.len()
        invariant
            i <= weights.len(),
            keys.len() == i,
            buf.st.len() == old(buf).st.len(),
            forall|j: int| 0 <= j < i ==> !(#[trigger] weights[j]).nan(),
            forall|j: int|
                0 <= j < i ==> (#[trigger] keys[j]) == double::SIGN + weights[j].position(),
        decreases weights.len() - i,
    {
        if weights[i].is_nan() {
            buf.clear();
            return Err(SpanningTreeError::Unordered);
        }
        keys.push(weights[i].key());
        i += 1;
    }
    assert(keys@ =~= weight_keys(weights@));
    let places: Vec<usize> = sorting::stable_order(&keys);
    let mut order: Vec<Edge> = Vec::new();
    let mut k: usize = 0;
    while k < places.len()
        invariant
            k <= places.len(),
            order.len() == k,
            keys.len() == graph.edges.len(),
            sorting::stable_order_of(keys@, places@),
            forall|j: int| 0 <= j < k ==> (#[trigger] order[j]) == graph.edges[places[j] as int],
        decreases places.len() - k,
    {
        assert(places@.contains(places[k as int]));
        order.push(graph.edges[places[k]]);
        k += 1;
    }
    assert(order@ =~= arranged(graph.edges@, places@));
    let ghost n = graph.order() as int;
    let ghost tree = connectivity::taken(order@, order@.len() as int);
    proof {
        assert forall|e: Edge| #[trigger] order@.contains(e) <==> graph.edges@.contains(e) by {
            if order@.contains(e) {
                let j = choose|j: int| 0 <= j < order@.len() && order@[j] == e;
                assert(places@.contains(places[j]));
                assert(graph.edges@[places[j] as int] == e);
            }
            if graph.edges@.contains(e) {
                let p = choose|p: int| 0 <= p < graph.edges@.len() && graph.edges@[p] == e;
                assert(places@.contains(p as usize));
                let j = choose|j: int| 0 <= j < places@.len() && places@[j] == p as usize;
                assert(order@[j] == e);
            }
        }
        assert forall|j: int| 0 <= j < order@.len() implies (#[trigger] order@[j]).0 < order@[j].1
            < n by {
            assert(places@.contains(places[j]));
            assert(graph.edges@[places[j] as int].0 < graph.edges@[places[j] as int].1);
        }
        samplers::taken_is_drawn_from(order@, order@.len() as int);
        if connectivity::all_connected(order@, n) {
            samplers::same_edges_connect_alike(order@, graph.edges@, n);
        }
        if connectivity::all_connected(graph.edges@, n) {
            samplers::same_edges_connect_alike(graph.edges@, order@, n);
        }
        assert(takes_lightest(graph.edges@, weights@, tree));
    }
    greedy_spanning_tree(graph, buf, &order)
}

impl<F: Fn(Op, Double, Double) -> Double> SpanningTreeSampler for RegionAwareSampler<F> {
    open spec fn ready(&self, graph: &Graph, parent: &Graph, raw_nodes: Seq<usize>) -> bool {
        self.reads(graph, parent, raw_nodes)
    }

    open spec fn draws(
        &self,
        graph: &Graph,
        parent: &Graph,
        raw_nodes: Seq<usize>,
        tree: Seq<Edge>,
    ) -> bool {
        self.may_take(graph, parent, raw_nodes, tree)
    }

    open spec fn comes(
        &self,
        graph: &Graph,
        parent: &Graph,
        raw_nodes: Seq<usize>,
        before: SmallRng,
        tree: Seq<Edge>,
        after: SmallRng,
    ) -> bool {
        self.tree_comes(graph, parent, raw_nodes, before, tree, after)
    }

    open spec fn fails_with(
        &self,
        graph: &Graph,
        parent: &Graph,
        raw_nodes: Seq<usize>,
        error: SpanningTreeError,
    ) -> bool {
        self.weights_fail(graph, parent, raw_nodes, error)
    }

    fn random_spanning_tree_with_parent(
        &mut self,
        graph: &Graph,
        parent: &Graph,
        raw_nodes: &Vec<usize>,
        buf: &mut SpanningTreeBuffer,
        rng: &mut SmallRng,
    ) -> (r: Result<(), SpanningTreeError>)
        ensures
            *final(self) == *old(self),
            r is Ok ==> connectivity::all_connected(graph.edges@, graph.order() as int),
            r is Ok ==> old(self).drew(graph, parent, raw_nodes@, *final(buf)),
    {
        self.sample_with_attr_source(graph, parent, raw_nodes, buf, rng)
    }
}

/// An edge leaves a region in either direction alike, and never within a named
/// region.
pub proof fn regions_are_left_both_ways(a: Seq<char>, b: Seq<char>)
    ensures
        leaves_region(a, b) == leaves_region(b, a),
        a.len() > 0 && a != "null"@ ==> !leaves_region(a, a),
        a != b ==> leaves_region(a, b),
        a.len() == 0 || a == "null"@ ==> leaves_region(a, a),
{
}

/// What the regions that an edge leaves are charged on a scale.
pub open spec fn charges(
    scale: spec_fn(Double) -> Option<int>,
    regions: Seq<(String, Double)>,
    source: &Graph,
    u: usize,
    v: usize,
) -> int
    decreases regions.len(),
{
    if regions.len() == 0 {
        0
    } else {
        let column = source.attr@[regions.last().0@];
        charges(scale, regions.drop_last(), source, u, v) + (if leaves_region(
            column[u as int]@,
            column[v as int]@,
        ) {
            scale(regions.last().1)->0
        } else {
            0
        })
    }
}

impl<F: Fn(Op, Double, Double) -> Double> RegionAwareSampler<F> {
    /// An edge weighs its random number and the surcharge of each region that it
    /// leaves, where the arithmetic is exact on them.
    pub proof fn surcharges_add_up(
        &self,
        scale: spec_fn(Double) -> Option<int>,
        bound: int,
        base: Double,
        source: &Graph,
        u: usize,
        v: usize,
        k: int,
    )
        requires
            self.numbers().exact_on(scale, bound),
            0 <= k <= self.regions().len(),
            scale(base) is Some && 0 <= scale(base)->0,
            forall|i: int|
                0 <= i < self.regions().len() ==> scale((#[trigger] self.regions()[i]).1) is Some
                    && 0 <= scale(self.regions()[i].1)->0,
            scale(base)->0 + charges(scale, self.regions().take(k), source, u, v) <= bound,
        ensures
            0 <= charges(scale, self.regions().take(k), source, u, v),
            scale(self.surcharged(base, source, u, v, k)) == Some(
                scale(base)->0 + charges(scale, self.regions().take(k), source, u, v),
            ),
        decreases k,
    {
        if k > 0 {
            let listed = self.regions().take(k);
            assert(listed.drop_last() =~= self.regions().take(k - 1));
            assert(listed.last() == self.regions()[k - 1]);
            assert(scale(self.regions()[k - 1].1) is Some);
            self.surcharges_add_up(scale, bound, base, source, u, v, k - 1);
            self.numbers().exact_results(
                scale,
                bound,
                self.surcharged(base, source, u, v, k - 1),
                self.regions()[k - 1].1,
            );
        }
    }

    /// An edge that leaves no region weighs its random number alone where no
    /// edge attributes are asked for.
    pub proof fn edges_within_regions_are_not_charged(
        &self,
        base: Double,
        source: &Graph,
        u: usize,
        v: usize,
        k: int,
    )
        requires
            0 <= k <= self.regions().len(),
            forall|i: int|
                0 <= i < k ==> !leaves_region(
                    source.attr@[(#[trigger] self.regions()[i]).0@][u as int]@,
                    source.attr@[self.regions()[i].0@][v as int]@,
                ),
        ensures
            self.surcharged(base, source, u, v, k) == base,
        decreases k,
    {
        if k > 0 {
            self.edges_within_regions_are_not_charged(base, source, u, v, k - 1);
            assert(!leaves_region(
                source.attr@[self.regions()[k - 1].0@][u as int]@,
                source.attr@[self.regions()[k - 1].0@][v as int]@,
            ));
        }
    }
}

} // verus!
