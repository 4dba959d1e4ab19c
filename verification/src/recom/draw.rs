//! Draws of proposals.

use rand::rngs::SmallRng;
use vstd::prelude::*;
use crate::double::{Arithmetic, Double, Op};
use crate::graph::{Edge, Graph};
use crate::partition::{Partition, Plan};
use crate::recom::merge::SubgraphBuffer;
use crate::recom::proposal::{RecomParams, RecomProposal, RecomVariant, Redraw};
use crate::recom::split::Rooted;
use crate::recom::{contiguity, merge, pairs, populations, split};
use crate::region_sampler::RegionAwareSampler;
use crate::samplers::{RMSTSampler, SpanningTreeSampler};
use crate::spanning_tree::{SpanningTreeBuffer, SpanningTreeError};
use crate::uniform_sampler::USTSampler;
use crate::{connectivity, graph, samplers, spanning_tree, vectors};

verus! {

/// The sampler of a chain variant.
pub enum Sampler<F> {
    Uniform(USTSampler),
    RandomWeight(RMSTSampler),
    RegionAware(RegionAwareSampler<F>),
}

/// Whether a variant draws uniform spanning trees.
pub open spec fn draws_uniformly(variant: RecomVariant) -> bool {
    variant == RecomVariant::Reversible || variant == RecomVariant::CutEdgesUST || variant
        == RecomVariant::DistrictPairsUST
}

/// Whether a variant charges region boundaries.
pub open spec fn is_region_aware(variant: RecomVariant) -> bool {
    variant == RecomVariant::CutEdgesRegionAware || variant
        == RecomVariant::DistrictPairsRegionAware
}

/// Whether a chain weighs edges by more than chance: by region boundaries, or
/// by edge columns under a variant of random weights.
pub open spec fn weighs_edges(params: &RecomParams) -> bool {
    is_region_aware(params.variant) || (!draws_uniformly(params.variant)
        && params.edge_weight_keys.len() > 0)
}

/// Whether the columns that a chain's trees are drawn by are there, with a
/// value for each node or edge.
pub open spec fn supports(graph: &Graph, params: &RecomParams) -> bool {
    &&& is_region_aware(params.variant) ==> forall|k: int|
        0 <= k < params.region_weights.len() ==> {
            &&& graph.attr@.contains_key((#[trigger] params.region_weights[k]).0@)
            &&& graph.attr@[params.region_weights[k].0@].len() == graph.order()
        }
    &&& weighs_edges(params) ==> forall|k: int|
        0 <= k < params.edge_weight_keys.len() ==> {
            &&& graph.edge_attr@.contains_key((#[trigger] params.edge_weight_keys[k])@)
            &&& graph.edge_attr@[params.edge_weight_keys[k]@].len() == graph.edges@.len()
        }
}

impl<F: Fn(Op, Double, Double) -> Double> Sampler<F> {
    /// Whether two samplers draw trees in the same way.
    pub open spec fn alike(&self, other: Sampler<F>) -> bool {
        match (*self, other) {
            (Sampler::Uniform(_), Sampler::Uniform(_)) => true,
            (Sampler::RandomWeight(_), Sampler::RandomWeight(_)) => true,
            (Sampler::RegionAware(s), Sampler::RegionAware(t)) => s == t,
            _ => false,
        }
    }

    /// Whether trees of the subgraphs of a graph can be drawn.
    pub open spec fn serves(&self, graph: &Graph) -> bool {
        match *self {
            Sampler::Uniform(s) => s.capacity() >= graph.order(),
            Sampler::RandomWeight(s) => true,
            Sampler::RegionAware(s) => s.reads(
                graph,
                graph,
                crate::region_sampler::identity(graph.order()),
            ),
        }
    }
}

impl<F: Fn(Op, Double, Double) -> Double> SpanningTreeSampler for Sampler<F> {
    open spec fn ready(&self, graph: &Graph, parent: &Graph, raw_nodes: Seq<usize>) -> bool {
        match *self {
            Sampler::Uniform(s) => s.ready(graph, parent, raw_nodes),
            Sampler::RandomWeight(s) => s.ready(graph, parent, raw_nodes),
            Sampler::RegionAware(s) => s.ready(graph, parent, raw_nodes),
        }
    }

    open spec fn draws(
        &self,
        graph: &Graph,
        parent: &Graph,
        raw_nodes: Seq<usize>,
        tree: Seq<Edge>,
    ) -> bool {
        match *self {
            Sampler::Uniform(s) => s.draws(graph, parent, raw_nodes, tree),
            Sampler::RandomWeight(s) => s.draws(graph, parent, raw_nodes, tree),
            Sampler::RegionAware(s) => s.draws(graph, parent, raw_nodes, tree),
        }
    }

    open spec fn comes(
        &self,
        graph: &Graph,
        parent: &Graph,
        raw_nodes: Seq<usize>,
        before: SmallRng,
        tree: Seq<Edge>,
        after: SmallRng,
    ) -> bool {
        match *self {
            Sampler::Uniform(s) => s.comes(graph, parent, raw_nodes, before, tree, after),
            Sampler::RandomWeight(s) => s.comes(graph, parent, raw_nodes, before, tree, after),
            Sampler::RegionAware(s) => s.comes(graph, parent, raw_nodes, before, tree, after),
        }
    }

    open spec fn fails_with(
        &self,
        graph: &Graph,
        parent: &Graph,
        raw_nodes: Seq<usize>,
        error: SpanningTreeError,
    ) -> bool {
        match *self {
            Sampler::Uniform(s) => s.fails_with(graph, parent, raw_nodes, error),
            Sampler::RandomWeight(s) => s.fails_with(graph, parent, raw_nodes, error),
            Sampler::RegionAware(s) => s.fails_with(graph, parent, raw_nodes, error),
        }
    }

    fn random_spanning_tree_with_parent(
        &mut self,
        graph: &Graph,
        parent: &Graph,
        raw_nodes: &Vec<usize>,
        buf: &mut SpanningTreeBuffer,
        rng: &mut SmallRng,
    ) -> (r: Result<(), SpanningTreeError>)
        ensures
            old(self).serves(parent) ==> final(self).serves(parent),
            final(self).alike(*old(self)),
            r matches Err(e) && e is Disconnected ==> !(graph.valid() && connectivity::all_connected(
                graph.edges@,
                graph.order() as int,
            )),
    {
        match self {
            Sampler::Uniform(s) => s.random_spanning_tree_with_parent(
                graph,
                parent,
                raw_nodes,
                buf,
                rng,
            ),
            Sampler::RandomWeight(s) => s.random_spanning_tree_with_parent(
                graph,
                parent,
                raw_nodes,
                buf,
                rng,
            ),
            Sampler::RegionAware(s) => s.random_spanning_tree_with_parent(
                graph,
                parent,
                raw_nodes,
                buf,
                rng,
            ),
        }
    }
}

fn copied_weights(weights: &Vec<(String, Double)>) -> (r: Vec<(String, Double)>)
    ensures
        r.len() == weights.len(),
        forall|k: int|
            0 <= k < r.len() ==> (#[trigger] r[k]).0@ == weights[k].0@ && r[k].1 == weights[k].1,
{
    let mut r: Vec<(String, Double)> = Vec::new();
    let mut k: usize = 0;
    while k < weights.len()
        invariant
            k <= weights.len(),
            r.len() == k,
            forall|j: int|
                0 <= j < k ==> (#[trigger] r[j]).0@ == weights[j].0@ && r[j].1 == weights[j].1,
        decreases weights.len() - k,
    {
        r.push((weights[k].0.clone(), weights[k].1));
        k += 1;
    }
    r
}

/// A sampler that weighs edges by the given regions and by the edge columns of
/// a chain.
fn make_weighted<F: Fn(Op, Double, Double) -> Double>(
    params: &RecomParams,
    weights: Vec<(String, Double)>,
    n: usize,
    arithmetic: Arithmetic<F>,
) -> (r: Sampler<F>)
    requires
        0 < n,
        8 * n <= usize::MAX,
        weighs_edges(params),
        weights.len() > 0 ==> is_region_aware(params.variant),
        weights.len() > 0 ==> weights.len() == params.region_weights.len(),
        forall|k: int|
            0 <= k < weights.len() ==> (#[trigger] weights[k]).0@ == params.region_weights[k].0@,
    ensures
        r matches Sampler::RegionAware(s) && s.regions() == weights@ && vectors::texts(s.keys())
            == vectors::texts(params.edge_weight_keys@) && s.numbers() == arithmetic,
        forall|graph: &Graph|
            #![trigger r.serves(graph)]
            graph.sound() && graph.order() <= n && supports(graph, params) && arithmetic.valid()
                ==> r.serves(graph),
{
    let keys: Vec<String> = vectors::copied_strings(&params.edge_weight_keys);
    let ghost texts = vectors::texts(keys@);
    let ghost regions = weights@;
    let s: RegionAwareSampler<F> = RegionAwareSampler::new(n, weights, keys, arithmetic);
    let r: Sampler<F> = Sampler::RegionAware(s);
    proof {
        assert forall|graph: &Graph|
            #![trigger r.serves(graph)]
            graph.sound() && graph.order() <= n && supports(graph, params)
                && arithmetic.valid() implies r.serves(graph) by {
            let indices = crate::region_sampler::identity(graph.order());
            assert(s.reads(graph, graph, indices)) by {
                assert forall|k: int| 0 <= k < s.regions().len() implies {
                    &&& graph.attr@.contains_key((#[trigger] s.regions()[k]).0@)
                    &&& graph.attr@[s.regions()[k].0@].len() == graph.order()
                } by {
                    assert(regions[k].0@ == params.region_weights[k].0@);
                }
                assert forall|k: int| 0 <= k < s.keys().len() implies {
                    &&& graph.edge_attr@.contains_key((#[trigger] s.keys()[k])@)
                    &&& graph.edge_attr@[s.keys()[k]@].len() == graph.edges@.len()
                } by {
                    assert(texts[k] == s.keys()[k]@);
                    assert(texts.len() == s.keys().len());
                    assert(texts.len() == params.edge_weight_keys.len());
                    assert(vectors::texts(params.edge_weight_keys@)[k]
                        == params.edge_weight_keys[k]@);
                }
            }
        }
    }
    r
}

/// Whether a sampler draws trees as a chain's parameters ask.
pub open spec fn made_for<F: Fn(Op, Double, Double) -> Double>(
    sampler: Sampler<F>,
    params: &RecomParams,
    arithmetic: Arithmetic<F>,
) -> bool {
    &&& sampler is Uniform <==> draws_uniformly(params.variant)
    &&& sampler is RegionAware <==> weighs_edges(params)
    &&& sampler matches Sampler::RegionAware(s) ==> {
        &&& s.regions().len() == (if is_region_aware(params.variant) {
            params.region_weights@.len()
        } else {
            0
        })
        &&& forall|k: int|
            0 <= k < s.regions().len() ==> (#[trigger] s.regions()[k]).0@
                == params.region_weights[k].0@ && s.regions()[k].1 == params.region_weights[k].1
        &&& vectors::texts(s.keys()) == vectors::texts(params.edge_weight_keys@)
        &&& s.numbers() == arithmetic
    }
}

/// The sampler of a chain on a graph with up to `n` nodes.
pub fn make_sampler<F: Fn(Op, Double, Double) -> Double>(
    params: &RecomParams,
    n: usize,
    arithmetic: Arithmetic<F>,
) -> (r: Sampler<F>)
    requires
        0 < n,
        8 * n <= usize::MAX,
    ensures
        made_for(r, params, arithmetic),
        forall|graph: &Graph|
            #![trigger r.serves(graph)]
            graph.sound() && graph.order() <= n && supports(graph, params) && arithmetic.valid()
                ==> r.serves(graph),
{
    match params.variant {
        RecomVariant::Reversible | RecomVariant::CutEdgesUST | RecomVariant::DistrictPairsUST => {
            Sampler::Uniform(USTSampler::new(n))
        },
        RecomVariant::CutEdgesRMST | RecomVariant::DistrictPairsRMST => {
            if params.edge_weight_keys.len() == 0 {
                return Sampler::RandomWeight(RMSTSampler::new(n));
            }
            make_weighted(params, Vec::new(), n, arithmetic)
        },
        RecomVariant::CutEdgesRegionAware | RecomVariant::DistrictPairsRegionAware => {
            let weights: Vec<(String, Double)> = copied_weights(&params.region_weights);
            make_weighted(params, weights, n, arithmetic)
        },
    }
}

/// What a chain may propose at a plan: two adjacent districts are redrawn,
/// their new populations are within bounds and are those of their nodes, and
/// both new districts are contiguous.
pub open spec fn proposes(graph: &Graph, plan: Plan, params: &RecomParams, p: Redraw) -> bool {
    &&& plan.admits(p)
    &&& pairs::adjacent(graph.edges@, plan.assignments, p.a_label as int, p.b_label as int)
    &&& params.min_pop <= p.a_pop <= params.max_pop
    &&& params.min_pop <= p.b_pop <= params.max_pop
    &&& populations::redraw_populated(graph.pops@, p)
    &&& contiguity::contiguous(graph.edges@, p.a_nodes)
    &&& contiguity::contiguous(graph.edges@, p.b_nodes)
}

/// Whether two districts of a plan can be redrawn together: they differ and an
/// edge joins them.
pub open spec fn paired(graph: &Graph, plan: Plan, a: int, b: int) -> bool {
    &&& 0 <= a < plan.num_dists
    &&& 0 <= b < plan.num_dists
    &&& a != b
    &&& pairs::adjacent(graph.edges@, plan.assignments, a, b)
}

/// Whether a buffer holds a spanning tree of a graph, and how it is rooted.
pub open spec fn rooted_tree(
    graph: &Graph,
    edges: Seq<Edge>,
    buf: &SpanningTreeBuffer,
    tree: &Rooted,
) -> bool {
    &&& spanning_tree::spans(edges, graph.order())
    &&& samplers::drawn_from(edges, graph.edges@)
    &&& buf.st.len() >= graph.order()
    &&& buf.holds(edges)
    &&& tree.roots(buf.st@, graph.order())
}

/// The places at which a rooted tree of merged districts falls into two parts
/// with populations within bounds.
pub open spec fn balanced_cuts(sub: &SubgraphBuffer, tree: &Rooted, params: &RecomParams) -> Seq<
    usize,
> {
    split::balanced_places(
        split::ordered_pops(sub.graph.pops@, tree.order@),
        tree.parent@,
        params.min_pop as int,
        params.max_pop as int,
        sub.graph.order() as int,
    )
}

/// Whether a proposal comes from a spanning tree of its two districts that a
/// sampler may draw and that has `n` balanced cuts, by one of these cuts.
pub open spec fn cut_from_a_tree<F: Fn(Op, Double, Double) -> Double>(
    sampler: Sampler<F>,
    graph: &Graph,
    plan: Plan,
    params: &RecomParams,
    n: nat,
    p: &RecomProposal,
) -> bool {
    exists|sub: SubgraphBuffer, edges: Seq<Edge>, buf: SpanningTreeBuffer, tree: Rooted, v: usize|
        {
            &&& merge::merges(graph, plan, p.a_label as int, p.b_label as int, &sub)
            &&& #[trigger] rooted_tree(&sub.graph, edges, &buf, &tree)
            &&& sampler.draws(&sub.graph, graph, sub.raw_nodes@, edges)
            &&& balanced_cuts(&sub, &tree, params).len() == n
            &&& balanced_cuts(&sub, &tree, params).contains(v)
            &&& #[trigger] split::cuts_at(&sub, &tree, p, v as int)
        }
}

/// Whether two adjacent districts merge into a graph that is disconnected, or
/// have a spanning tree without a balanced cut.
pub open spec fn splits_fail(graph: &Graph, plan: Plan, params: &RecomParams) -> bool {
    exists|a: int, b: int, sub: SubgraphBuffer|
        {
            &&& paired(graph, plan, a, b)
            &&& #[trigger] merge::merges(graph, plan, a, b, &sub)
            &&& !split::reaches_all(sub.graph.neighbors@, sub.graph.order()) || exists|
                edges: Seq<Edge>,
                buf: SpanningTreeBuffer,
                tree: Rooted,
            |
                #[trigger] rooted_tree(&sub.graph, edges, &buf, &tree) && balanced_cuts(
                    &sub,
                    &tree,
                    params,
                ).len() == 0
        }
}

/// Whether a sampler may fail with an error to draw a tree of two districts
/// that can be redrawn together and whose neighbor lists connect them.
pub open spec fn trees_fail<F: Fn(Op, Double, Double) -> Double>(
    sampler: Sampler<F>,
    graph: &Graph,
    plan: Plan,
    e: SpanningTreeError,
    a: int,
    b: int,
) -> bool {
    &&& paired(graph, plan, a, b)
    &&& exists|sub: SubgraphBuffer|
        {
            &&& #[trigger] merge::merges(graph, plan, a, b, &sub)
            &&& split::reaches_all(sub.graph.neighbors@, sub.graph.order())
            &&& sampler.fails_with(&sub.graph, graph, sub.raw_nodes@, e)
        }
}

/// Samplers that draw in the same way fail in the same way.
pub proof fn alike_samplers_fail_alike<F: Fn(Op, Double, Double) -> Double>(
    s: Sampler<F>,
    t: Sampler<F>,
    graph: &Graph,
    plan: Plan,
    e: SpanningTreeError,
    a: int,
    b: int,
)
    requires
        s.alike(t),
        trees_fail(s, graph, plan, e, a, b),
    ensures
        trees_fail(t, graph, plan, e, a, b),
{
    let sub = choose|sub: SubgraphBuffer|
        {
            &&& #[trigger] merge::merges(graph, plan, a, b, &sub)
            &&& split::reaches_all(sub.graph.neighbors@, sub.graph.order())
            &&& s.fails_with(&sub.graph, graph, sub.raw_nodes@, e)
        };
    assert(t.fails_with(&sub.graph, graph, sub.raw_nodes@, e));
}

/// Whether a redrawing comes from a spanning tree that a sampler may draw.
pub open spec fn cut_by<F: Fn(Op, Double, Double) -> Double>(
    sampler: Sampler<F>,
    graph: &Graph,
    plan: Plan,
    params: &RecomParams,
    p: Redraw,
) -> bool {
    exists|n: nat, q: RecomProposal| #[trigger]
        cut_from_a_tree(sampler, graph, plan, params, n, &q) && q@ == p
}

/// Whether a redrawing comes from a spanning tree that a chain may draw: by the
/// weights that its parameters give to edges, where they give any.
pub open spec fn drawn_for<F: Fn(Op, Double, Double) -> Double>(
    arithmetic: Arithmetic<F>,
    graph: &Graph,
    plan: Plan,
    params: &RecomParams,
    p: Redraw,
) -> bool {
    exists|sampler: Sampler<F>|
        made_for(sampler, params, arithmetic) && #[trigger] cut_by(sampler, graph, plan, params, p)
}

/// Samplers that draw in the same way cut proposals from the same trees.
pub proof fn alike_samplers_cut_alike<F: Fn(Op, Double, Double) -> Double>(
    s: Sampler<F>,
    t: Sampler<F>,
    graph: &Graph,
    plan: Plan,
    params: &RecomParams,
    n: nat,
    p: &RecomProposal,
)
    requires
        s.alike(t),
        cut_from_a_tree(s, graph, plan, params, n, p),
    ensures
        cut_from_a_tree(t, graph, plan, params, n, p),
{
    let (sub, edges, buf, tree, v) = choose|
        sub: SubgraphBuffer,
        edges: Seq<Edge>,
        buf: SpanningTreeBuffer,
        tree: Rooted,
        v: usize,
    |
        {
            &&& merge::merges(graph, plan, p.a_label as int, p.b_label as int, &sub)
            &&& #[trigger] rooted_tree(&sub.graph, edges, &buf, &tree)
            &&& s.draws(&sub.graph, graph, sub.raw_nodes@, edges)
            &&& balanced_cuts(&sub, &tree, params).len() == n
            &&& balanced_cuts(&sub, &tree, params).contains(v)
            &&& #[trigger] split::cuts_at(&sub, &tree, p, v as int)
        };
    assert(t.draws(&sub.graph, graph, sub.raw_nodes@, edges));
    assert(rooted_tree(&sub.graph, edges, &buf, &tree));
}

/// Samplers that draw in the same way make the same redrawings.
pub proof fn alike_samplers_redraw_alike<F: Fn(Op, Double, Double) -> Double>(
    s: Sampler<F>,
    t: Sampler<F>,
    graph: &Graph,
    plan: Plan,
    params: &RecomParams,
    p: Redraw,
)
    requires
        s.alike(t),
        cut_by(s, graph, plan, params, p),
    ensures
        cut_by(t, graph, plan, params, p),
{
    let (n, q) = choose|n: nat, q: RecomProposal| #[trigger]
        cut_from_a_tree(s, graph, plan, params, n, &q) && q@ == p;
    alike_samplers_cut_alike(s, t, graph, plan, params, n, &q);
}

/// Whether no two districts of a plan can be redrawn together.
pub open spec fn no_pair(graph: &Graph, plan: Plan) -> bool {
    forall|e: int|
        0 <= e < graph.edges@.len() ==> !#[trigger] pairs::is_cut(
            graph.edges@,
            plan.assignments,
            e,
        )
}

/// Whether the drawn districts may make no pair: a random cut edge where there
/// is none, two random labels where they are equal or not adjacent.
pub open spec fn pairs_fail(graph: &Graph, plan: Plan, params: &RecomParams) -> bool {
    if pairs::by_cut_edge(params.variant) {
        no_pair(graph, plan)
    } else {
        exists|a: int, b: int|
            0 <= a < plan.num_dists && 0 <= b < plan.num_dists && #[trigger] pairs::apart(
                graph.edges@,
                plan.assignments,
                a,
                b,
            )
    }
}

/// Whether every draw may come to no proposal: no two districts can be redrawn
/// together, or two that can may not be split.
pub open spec fn draws_fail(graph: &Graph, plan: Plan, params: &RecomParams) -> bool {
    no_pair(graph, plan) || splits_fail(graph, plan, params)
}

/// What a draw at a plan may come to.
pub open spec fn may_come<F: Fn(Op, Double, Double) -> Double>(
    sampler: Sampler<F>,
    graph: &Graph,
    plan: Plan,
    params: &RecomParams,
    drawn: Draw,
) -> bool {
    match drawn {
        Draw::Proposal(n, p) => {
            &&& 0 < n < graph.order()
            &&& proposes(graph, plan, params, p@)
            &&& cut_from_a_tree(sampler, graph, plan, params, n as nat, &p)
        },
        Draw::NoPair => pairs_fail(graph, plan, params),
        Draw::NoSplit => splits_fail(graph, plan, params),
        Draw::Failed(e, a, b) => {
            &&& trees_fail(sampler, graph, plan, e, a as int, b as int)
            &&& e is Disconnected ==> !graph.valid()
        },
    }
}

/// The outcome of one draw.
pub enum Draw {
    /// A proposal, and the number of balanced cuts of its tree.
    Proposal(usize, RecomProposal),
    /// The sampled districts make no pair.
    NoPair,
    /// The merged districts are disconnected or the tree has no balanced cut.
    NoSplit,
    /// No tree of the two districts could be drawn.
    Failed(SpanningTreeError, usize, usize),
}

/// Nodes that are reached through neighbor lists are connected by edges.
proof fn reached_is_connected(g: &Graph, v: usize)
    requires
        g.valid(),
        split::reached(g.neighbors@, v),
        g.order() > 0,
        v < g.order(),
    ensures
        connectivity::connected(g.edges@, 0, v as int),
{
    let path = choose|path: Seq<usize>|
        #![trigger split::follows(g.neighbors@, path)]
        path.len() > 0 && path[0] == 0 && path.last() == v && split::follows(g.neighbors@, path);
    let ints = path.map_values(|x: usize| x as int);
    path_stays_within(g, path, path.len() - 1);
    assert forall|i: int| 0 <= i < ints.len() - 1 implies graph::joined(
        g.edges@,
        #[trigger] ints[i],
        ints[i + 1],
    ) by {
        path_stays_within(g, path, i);
        assert(g.neighbors@[path[i] as int]@.contains(path[i + 1]));
    }
    assert(connectivity::walk(g.edges@, ints));
}

proof fn path_stays_within(g: &Graph, path: Seq<usize>, k: int)
    requires
        g.sound(),
        g.order() > 0,
        split::follows(g.neighbors@, path),
        path[0] == 0,
        0 <= k < path.len(),
    ensures
        path[k] < g.order(),
    decreases k,
{
    if k > 0 {
        path_stays_within(g, path, k - 1);
        assert(g.neighbors@[path[k - 1] as int]@.contains(path[k]));
    }
}

proof fn reaching_connects(g: &Graph)
    requires
        g.valid(),
        g.order() > 0,
        split::reaches_all(g.neighbors@, g.order()),
    ensures
        connectivity::all_connected(g.edges@, g.order() as int),
{
    assert forall|u: int, v: int| 0 <= u < g.order() && 0 <= v < g.order() implies #[trigger] connectivity::connected(
        g.edges@,
        u,
        v,
    ) by {
        assert(split::reached(g.neighbors@, u as usize));
        assert(split::reached(g.neighbors@, v as usize));
        reached_is_connected(g, u as usize);
        reached_is_connected(g, v as usize);
        connectivity::connected_both_ways(g.edges@, 0, u);
        connectivity::connected_in_turn(g.edges@, u, 0, v);
    }
}

/// On a valid graph a sampler that weighs no edges draws a tree of any two
/// districts that can be redrawn together and whose neighbor lists connect them.
pub proof fn valid_graphs_have_trees<F: Fn(Op, Double, Double) -> Double>(
    sampler: Sampler<F>,
    graph: &Graph,
    plan: Plan,
    e: SpanningTreeError,
    a: int,
    b: int,
)
    requires
        graph.valid(),
        !(sampler is RegionAware),
    ensures
        !trees_fail(sampler, graph, plan, e, a, b),
{
    if trees_fail(sampler, graph, plan, e, a, b) {
        let sub = choose|sub: SubgraphBuffer|
            {
                &&& #[trigger] merge::merges(graph, plan, a, b, &sub)
                &&& split::reaches_all(sub.graph.neighbors@, sub.graph.order())
                &&& sampler.fails_with(&sub.graph, graph, sub.raw_nodes@, e)
            };
        if sub.graph.order() > 0 {
            reaching_connects(&sub.graph);
        }
        assert(spanning_tree::lacks_edges(&sub.graph, e));
        assert(!crate::uniform_sampler::lists_no_edge(&sub.graph));
    }
}

/// The tree in a buffer leads to every node, along edges of the graph.
proof fn drawn_tree_reaches_all(g: &Graph, buf: &SpanningTreeBuffer, tree: Seq<Edge>)
    requires
        g.sound(),
        g.order() > 0,
        buf.st.len() >= g.order(),
        spanning_tree::spans(tree, g.order()),
        buf.holds(tree),
        samplers::drawn_from(tree, g.edges@),
    ensures
        split::reaches_all(buf.st@, g.order()),
        forall|v: int, w: usize|
            0 <= v < g.order() && #[trigger] buf.st[v]@.contains(w) ==> w < g.order()
                && graph::joined(g.edges@, v, w as int),
{
    assert forall|i: int| 0 <= i < tree.len() implies (#[trigger] tree[i]).0 < tree[i].1
        < g.order() by {
        assert(g.edges@.contains(tree[i]));
        let j = choose|j: int| 0 <= j < g.edges@.len() && g.edges@[j] == tree[i];
        assert(g.edges@[j].0 < g.edges@[j].1 < g.order());
    }
    split::spanning_tree_reaches_all(buf, tree, g.order());
    assert forall|v: int, w: usize|
        0 <= v < g.order() && #[trigger] buf.st[v]@.contains(w) implies graph::joined(
        g.edges@,
        v,
        w as int,
    ) by {
        assert(graph::joined(tree, v, w as int));
        let i = choose|i: int|
            0 <= i < tree.len() && (((#[trigger] tree[i]).0 == v && tree[i].1 == w) || (tree[i].0
                == w && tree[i].1 == v));
        assert(g.edges@.contains(tree[i]));
        let j = choose|j: int| 0 <= j < g.edges@.len() && g.edges@[j] == tree[i];
        assert(g.edges@[j].0 == tree[i].0);
    }
}

/// Draws one proposal: samples a pair of districts, draws a spanning tree of
/// the merged districts, and cuts it at a random balanced edge. A draw by cut
/// edge finds a pair where there is a cut edge; on a valid graph no draw fails
/// for want of connection. Which pair, tree and cut are drawn is left to chance.
pub fn draw_proposal<F: Fn(Op, Double, Double) -> Double>(
    graph: &Graph,
    partition: &Partition,
    params: &RecomParams,
    sampler: &mut Sampler<F>,
    buf: &mut SpanningTreeBuffer,
    rng: &mut SmallRng,
) -> (r: Draw)
    requires
        graph.sound(),
        partition@.valid(),
        partition@.assignments.len() == graph.order(),
        partition@.num_dists > 0,
        old(sampler).serves(graph),
        old(buf).st.len() >= graph.order(),
    ensures
        final(sampler).serves(graph),
        final(buf).st.len() == old(buf).st.len(),
        final(sampler).alike(*old(sampler)),
        may_come(*old(sampler), graph, partition@, params, r),
        draw_comes(*old(sampler), graph, partition@, params, *old(rng), r, *final(rng)),
{
    let pair: Option<(usize, usize)> = pairs::sample_dist_pair(
        graph,
        partition,
        params.variant,
        rng,
    );
    let ghost between = *rng;
    assert(pairs::pair_comes(graph, partition@, params.variant, *old(rng), pair, between));
    match pair {
        Some((a, b)) => draw_from_pair(graph, partition, params, a, b, sampler, buf, rng),
        None => Draw::NoPair,
    }
}

/// Whether a cut of a tree of two districts is what a generator gives next: it
/// gives the tree, and then picks the cut among all that are balanced.
pub open spec fn tree_is_cut<F: Fn(Op, Double, Double) -> Double>(
    sampler: Sampler<F>,
    graph: &Graph,
    plan: Plan,
    params: &RecomParams,
    a: int,
    b: int,
    before: SmallRng,
    r: Option<(usize, RecomProposal)>,
    after: SmallRng,
) -> bool {
    exists|
        sub: SubgraphBuffer,
        edges: Seq<Edge>,
        buf: SpanningTreeBuffer,
        tree: Rooted,
        between: SmallRng,
    |
        {
            &&& merge::merges(graph, plan, a, b, &sub)
            &&& #[trigger] rooted_tree(&sub.graph, edges, &buf, &tree)
            &&& sampler.comes(&sub.graph, graph, sub.raw_nodes@, before, edges, between)
            &&& #[trigger] split::split_comes(
                &sub,
                &tree,
                balanced_cuts(&sub, &tree, params),
                between,
                r,
                after,
            )
        }
}

/// Whether a draw on two districts is what a generator gives next. A tree that
/// cannot be drawn is left open.
pub open spec fn redraw_comes<F: Fn(Op, Double, Double) -> Double>(
    sampler: Sampler<F>,
    graph: &Graph,
    plan: Plan,
    params: &RecomParams,
    a: int,
    b: int,
    before: SmallRng,
    drawn: Draw,
    after: SmallRng,
) -> bool {
    match drawn {
        Draw::Proposal(n, p) => tree_is_cut(
            sampler,
            graph,
            plan,
            params,
            a,
            b,
            before,
            Some((n, p)),
            after,
        ),
        Draw::NoSplit => {
            ||| after == before && exists|sub: SubgraphBuffer| #[trigger]
                merge::merges(graph, plan, a, b, &sub) && !split::reaches_all(
                    sub.graph.neighbors@,
                    sub.graph.order(),
                )
            ||| tree_is_cut(sampler, graph, plan, params, a, b, before, None, after)
        },
        Draw::Failed(_, x, y) => x == a && y == b,
        Draw::NoPair => false,
    }
}

/// Samplers that draw in the same way give the same draws.
pub proof fn alike_samplers_come_alike<F: Fn(Op, Double, Double) -> Double>(
    s: Sampler<F>,
    t: Sampler<F>,
    graph: &Graph,
    plan: Plan,
    params: &RecomParams,
    before: SmallRng,
    drawn: Draw,
    after: SmallRng,
)
    requires
        s.alike(t),
        draw_comes(s, graph, plan, params, before, drawn, after),
    ensures
        draw_comes(t, graph, plan, params, before, drawn, after),
{
    let (pair, between) = choose|pair: Option<(usize, usize)>, between: SmallRng|
        {
            &&& #[trigger] pairs::pair_comes(graph, plan, params.variant, before, pair, between)
            &&& match pair {
                None => drawn is NoPair && after == between,
                Some((a, b)) => redraw_comes(
                    s,
                    graph,
                    plan,
                    params,
                    a as int,
                    b as int,
                    between,
                    drawn,
                    after,
                ),
            }
        };
    if let Some((a, b)) = pair {
        alike_samplers_cut_trees_alike(
            s,
            t,
            graph,
            plan,
            params,
            a as int,
            b as int,
            between,
            match drawn {
                Draw::Proposal(n, p) => Some((n, p)),
                _ => None,
            },
            after,
        );
    }
}

proof fn alike_samplers_cut_trees_alike<F: Fn(Op, Double, Double) -> Double>(
    s: Sampler<F>,
    t: Sampler<F>,
    graph: &Graph,
    plan: Plan,
    params: &RecomParams,
    a: int,
    b: int,
    before: SmallRng,
    r: Option<(usize, RecomProposal)>,
    after: SmallRng,
)
    requires
        s.alike(t),
    ensures
        tree_is_cut(s, graph, plan, params, a, b, before, r, after) ==> tree_is_cut(
            t,
            graph,
            plan,
            params,
            a,
            b,
            before,
            r,
            after,
        ),
{
    if tree_is_cut(s, graph, plan, params, a, b, before, r, after) {
        let (sub, edges, buf, tree, between) = choose|
            sub: SubgraphBuffer,
            edges: Seq<Edge>,
            buf: SpanningTreeBuffer,
            tree: Rooted,
            between: SmallRng,
        |
            {
                &&& merge::merges(graph, plan, a, b, &sub)
                &&& #[trigger] rooted_tree(&sub.graph, edges, &buf, &tree)
                &&& s.comes(&sub.graph, graph, sub.raw_nodes@, before, edges, between)
                &&& #[trigger] split::split_comes(
                    &sub,
                    &tree,
                    balanced_cuts(&sub, &tree, params),
                    between,
                    r,
                    after,
                )
            };
        assert(t.comes(&sub.graph, graph, sub.raw_nodes@, before, edges, between));
        assert(rooted_tree(&sub.graph, edges, &buf, &tree));
    }
}

/// Whether a draw is what a generator gives next: it gives two districts and
/// then a draw on them.
pub open spec fn draw_comes<F: Fn(Op, Double, Double) -> Double>(
    sampler: Sampler<F>,
    graph: &Graph,
    plan: Plan,
    params: &RecomParams,
    before: SmallRng,
    drawn: Draw,
    after: SmallRng,
) -> bool {
    exists|pair: Option<(usize, usize)>, between: SmallRng|
        {
            &&& #[trigger] pairs::pair_comes(graph, plan, params.variant, before, pair, between)
            &&& match pair {
                None => drawn is NoPair && after == between,
                Some((a, b)) => redraw_comes(
                    sampler,
                    graph,
                    plan,
                    params,
                    a as int,
                    b as int,
                    between,
                    drawn,
                    after,
                ),
            }
        }
}

/// A random balanced cut of a drawn tree is a proposal.
proof fn cut_is_proposed<F: Fn(Op, Double, Double) -> Double>(
    sampler: Sampler<F>,
    graph: &Graph,
    plan: Plan,
    params: &RecomParams,
    sub: &SubgraphBuffer,
    edges: Seq<Edge>,
    buf: &SpanningTreeBuffer,
    splits: usize,
    p: &RecomProposal,
)
    requires
        graph.sound(),
        plan.valid(),
        plan.assignments.len() == graph.order(),
        paired(graph, plan, p.a_label as int, p.b_label as int),
        merge::merges(graph, plan, p.a_label as int, p.b_label as int, sub),
        sub.raw_nodes.len() == sub.graph.order(),
        sub.raw_nodes@.no_duplicates(),
        0 < sub.graph.order() <= graph.order() <= u32::MAX,
        buf.st.len() >= sub.graph.order(),
        spanning_tree::spans(edges, sub.graph.order()),
        buf.holds(edges),
        samplers::drawn_from(edges, sub.graph.edges@),
        sampler.draws(&sub.graph, graph, sub.raw_nodes@, edges),
        split::divides(sub, p, params.min_pop, params.max_pop),
        exists|tree: Rooted|
            {
                let places = split::balanced_places(
                    split::ordered_pops(sub.graph.pops@, tree.order@),
                    tree.parent@,
                    params.min_pop as int,
                    params.max_pop as int,
                    sub.graph.order() as int,
                );
                &&& #[trigger] tree.roots(buf.st@, sub.graph.order())
                &&& splits == places.len()
                &&& splits > 0
                &&& exists|v: usize| #[trigger]
                    places.contains(v) && split::cuts_at(sub, &tree, p, v as int)
            },
    ensures
        0 < splits < graph.order(),
        proposes(graph, plan, params, p@),
        cut_from_a_tree(sampler, graph, plan, params, splits as nat, p),
{
    let tree = choose|tree: Rooted|
        {
            let places = split::balanced_places(
                split::ordered_pops(sub.graph.pops@, tree.order@),
                tree.parent@,
                params.min_pop as int,
                params.max_pop as int,
                sub.graph.order() as int,
            );
            &&& #[trigger] tree.roots(buf.st@, sub.graph.order())
            &&& splits == places.len()
            &&& splits > 0
            &&& exists|v: usize| #[trigger]
                places.contains(v) && split::cuts_at(sub, &tree, p, v as int)
        };
    let places = split::balanced_places(
        split::ordered_pops(sub.graph.pops@, tree.order@),
        tree.parent@,
        params.min_pop as int,
        params.max_pop as int,
        sub.graph.order() as int,
    );
    let v = choose|v: usize| #[trigger]
        places.contains(v) && split::cuts_at(sub, &tree, p, v as int);
    few_balanced_places(
        split::ordered_pops(sub.graph.pops@, tree.order@),
        tree.parent@,
        params.min_pop as int,
        params.max_pop as int,
        sub.graph.order() as int,
    );
    drawn_tree_reaches_all(&sub.graph, buf, edges);
    assert(rooted_tree(&sub.graph, edges, buf, &tree));
    assert(balanced_cuts(sub, &tree, params) == places);
    assert(split::cuts_at(sub, &tree, p, v as int));
    populations::cut_is_populated(graph, sub, buf.st@, &tree, p, v as int);
    contiguity::cut_districts_are_contiguous(graph, sub, buf.st@, &tree, p, v as int);
    assert(plan.admits(p@)) by {
        assert forall|x: usize|
            {
                &&& !(#[trigger] p@.a_nodes.contains(x) && p@.b_nodes.contains(x))
                &&& p@.a_nodes.contains(x) || p@.b_nodes.contains(x)
                    <==> plan.dist_nodes[p@.a_label as int].contains(x)
                    || plan.dist_nodes[p@.b_label as int].contains(x)
            } by {
            assert(p.a_nodes@.contains(x) || p.b_nodes@.contains(x) <==> sub.raw_nodes@.contains(
                x,
            ));
            in_either(
                plan.dist_nodes[p.a_label as int],
                plan.dist_nodes[p.b_label as int],
                x,
            );
        }
    }
}

proof fn cut_comes<F: Fn(Op, Double, Double) -> Double>(
    sampler: Sampler<F>,
    graph: &Graph,
    plan: Plan,
    params: &RecomParams,
    a: int,
    b: int,
    sub: &SubgraphBuffer,
    edges: Seq<Edge>,
    buf: &SpanningTreeBuffer,
    before: SmallRng,
    between: SmallRng,
    r: Option<(usize, RecomProposal)>,
    after: SmallRng,
)
    requires
        merge::merges(graph, plan, a, b, sub),
        spanning_tree::spans(edges, sub.graph.order()),
        samplers::drawn_from(edges, sub.graph.edges@),
        buf.st.len() >= sub.graph.order(),
        buf.holds(edges),
        sampler.comes(&sub.graph, graph, sub.raw_nodes@, before, edges, between),
        exists|tree: Rooted|
            {
                let places = split::balanced_places(
                    split::ordered_pops(sub.graph.pops@, tree.order@),
                    tree.parent@,
                    params.min_pop as int,
                    params.max_pop as int,
                    sub.graph.order() as int,
                );
                &&& #[trigger] tree.roots(buf.st@, sub.graph.order())
                &&& split::split_comes(sub, &tree, places, between, r, after)
            },
    ensures
        tree_is_cut(sampler, graph, plan, params, a, b, before, r, after),
{
    let tree = choose|tree: Rooted|
        {
            let places = split::balanced_places(
                split::ordered_pops(sub.graph.pops@, tree.order@),
                tree.parent@,
                params.min_pop as int,
                params.max_pop as int,
                sub.graph.order() as int,
            );
            &&& #[trigger] tree.roots(buf.st@, sub.graph.order())
            &&& split::split_comes(sub, &tree, places, between, r, after)
        };
    assert(rooted_tree(&sub.graph, edges, buf, &tree));
    assert(split::split_comes(
        sub,
        &tree,
        balanced_cuts(sub, &tree, params),
        between,
        r,
        after,
    ));
}

/// Draws a proposal that redraws two given districts.
pub fn draw_from_pair<F: Fn(Op, Double, Double) -> Double>(
    graph: &Graph,
    partition: &Partition,
    params: &RecomParams,
    a: usize,
    b: usize,
    sampler: &mut Sampler<F>,
    buf: &mut SpanningTreeBuffer,
    rng: &mut SmallRng,
) -> (r: Draw)
    requires
        graph.sound(),
        partition@.valid(),
        partition@.assignments.len() == graph.order(),
        paired(graph, partition@, a as int, b as int),
        old(sampler).serves(graph),
        old(buf).st.len() >= graph.order(),
    ensures
        final(sampler).serves(graph),
        final(buf).st.len() == old(buf).st.len(),
        final(sampler).alike(*old(sampler)),
        may_come(*old(sampler), graph, partition@, params, r),
        r !is NoPair,
        redraw_comes(
            *old(sampler),
            graph,
            partition@,
            params,
            a as int,
            b as int,
            *old(rng),
            r,
            *final(rng),
        ),
        r matches Draw::Proposal(_, p) ==> p.a_label == a && p.b_label == b,
        r matches Draw::Failed(_, x, y) ==> x == a && y == b,
{
    let sub: SubgraphBuffer = merge::merged_subgraph(graph, partition, a, b);
    let n: usize = sub.graph.pops.len();
    proof {
        let e = choose|e: int|
            0 <= e < graph.edges@.len() && ((partition@.assignments[(
            #[trigger] graph.edges@[e]).0 as int] == a && partition@.assignments[graph.edges@[e].1 as int]
                == b) || (partition@.assignments[graph.edges@[e].0 as int] == b
                && partition@.assignments[graph.edges@[e].1 as int] == a));
        assert(graph.edges@[e].0 < graph.edges@[e].1 < graph.order());
        let v = if partition@.assignments[graph.edges@[e].0 as int] == a {
            graph.edges@[e].0
        } else {
            graph.edges@[e].1
        };
        assert(partition@.dist_nodes[a as int].contains(v));
        assert(sub.raw_nodes@.len() > 0);
        merged_nodes_are_within(graph, partition@, a as int, b as int, sub.raw_nodes@);
        assert forall|v: int, w: usize|
            0 <= v < n && #[trigger] sub.graph.neighbors[v]@.contains(w) implies w < n by {
            let i = choose|i: int|
                0 <= i < sub.graph.neighbors[v]@.len() && sub.graph.neighbors[v]@[i] == w;
            assert(sub.graph.neighbors@[v]@[i] < sub.graph.order());
        }
    }
    match split::root_tree(&sub.graph.neighbors, n) {
        Some(_) => {},
        None => {
            assert(merge::merges(graph, partition@, a as int, b as int, &sub));
            return Draw::NoSplit;
        },
    }
    proof {
        if graph.valid() {
            reaching_connects(&sub.graph);
        }
    }
    match sampler.random_spanning_tree_with_parent(&sub.graph, graph, &sub.raw_nodes, buf, rng) {
        Ok(()) => {},
        Err(e) => {
            assert(merge::merges(graph, partition@, a as int, b as int, &sub));
            return Draw::Failed(e, a, b);
        },
    }
    let ghost edges = choose|tree: Seq<Edge>|
        {
            &&& #[trigger] spanning_tree::spans(tree, sub.graph.order())
            &&& buf.holds(tree)
            &&& samplers::drawn_from(tree, sub.graph.edges@)
            &&& old(sampler).draws(&sub.graph, graph, sub.raw_nodes@, tree)
            &&& old(sampler).comes(&sub.graph, graph, sub.raw_nodes@, *old(rng), tree, *rng)
        };
    let ghost between = *rng;
    proof {
        drawn_tree_reaches_all(&sub.graph, buf, edges);
    }
    match split::random_split(&sub, buf, a, b, params.min_pop, params.max_pop, rng) {
        Some((splits, p)) => {
            proof {
                cut_is_proposed(
                    *old(sampler),
                    graph,
                    partition@,
                    params,
                    &sub,
                    edges,
                    buf,
                    splits,
                    &p,
                );
                cut_comes(
                    *old(sampler),
                    graph,
                    partition@,
                    params,
                    a as int,
                    b as int,
                    &sub,
                    edges,
                    buf,
                    *old(rng),
                    between,
                    Some((splits, p)),
                    *rng,
                );
            }
            Draw::Proposal(splits, p)
        },
        None => {
            proof {
                let tree = choose|tree: Rooted|
                    {
                        let places = split::balanced_places(
                            split::ordered_pops(sub.graph.pops@, tree.order@),
                            tree.parent@,
                            params.min_pop as int,
                            params.max_pop as int,
                            sub.graph.order() as int,
                        );
                        &&& #[trigger] tree.roots(buf.st@, sub.graph.order())
                        &&& places.len() == 0
                    };
                assert(rooted_tree(&sub.graph, edges, buf, &tree));
                assert(balanced_cuts(&sub, &tree, params).len() == 0);
                assert(merge::merges(graph, partition@, a as int, b as int, &sub));
                cut_comes(
                    *old(sampler),
                    graph,
                    partition@,
                    params,
                    a as int,
                    b as int,
                    &sub,
                    edges,
                    buf,
                    *old(rng),
                    between,
                    None,
                    *rng,
                );
            }
            Draw::NoSplit
        },
    }
}

proof fn in_either(a: Seq<usize>, b: Seq<usize>, x: usize)
    ensures
        (a + b).contains(x) <==> a.contains(x) || b.contains(x),
{
    if a.contains(x) {
        let i = choose|i: int| 0 <= i < a.len() && a[i] == x;
        assert((a + b)[i] == x);
    }
    if b.contains(x) {
        let i = choose|i: int| 0 <= i < b.len() && b[i] == x;
        assert((a + b)[a.len() + i] == x);
    }
}

proof fn merged_nodes_are_within(graph: &Graph, plan: Plan, a: int, b: int, raw: Seq<usize>)
    requires
        plan.valid(),
        plan.assignments.len() == graph.order(),
        0 <= a < plan.num_dists,
        0 <= b < plan.num_dists,
        raw == plan.dist_nodes[a] + plan.dist_nodes[b],
        raw.no_duplicates(),
    ensures
        forall|i: int| 0 <= i < raw.len() ==> (#[trigger] raw[i]) < graph.order(),
        raw.len() <= graph.order(),
{
    assert forall|i: int| 0 <= i < raw.len() implies (#[trigger] raw[i]) < graph.order() by {
        assert(raw.contains(raw[i]));
        in_either(plan.dist_nodes[a], plan.dist_nodes[b], raw[i]);
        assert(plan.dist_nodes[a].contains(raw[i]) <==> raw[i] < plan.assignments.len()
            && plan.assignments[raw[i] as int] == a);
        assert(plan.dist_nodes[b].contains(raw[i]) <==> raw[i] < plan.assignments.len()
            && plan.assignments[raw[i] as int] == b);
    }
    crate::stats::sums::distinct_indices_are_few(raw, graph.order());
}

/// There are fewer balanced places than places, and the root is none.
proof fn few_balanced_places(
    weights: Seq<u32>,
    parent: Seq<usize>,
    min_pop: int,
    max_pop: int,
    k: int,
)
    requires
        0 <= k <= usize::MAX,
    ensures
        split::balanced_places(weights, parent, min_pop, max_pop, k).len() <= if k > 0 {
            k - 1
        } else {
            0
        },
        forall|v: usize|
            #![trigger split::balanced_places(weights, parent, min_pop, max_pop, k).contains(v)]
            split::balanced_places(weights, parent, min_pop, max_pop, k).contains(v) ==> 0 < v < k,
    decreases k,
{
    if k > 1 {
        few_balanced_places(weights, parent, min_pop, max_pop, k - 1);
        let before = split::balanced_places(weights, parent, min_pop, max_pop, k - 1);
        assert forall|v: usize|
            #![trigger split::balanced_places(weights, parent, min_pop, max_pop, k).contains(v)]
            split::balanced_places(weights, parent, min_pop, max_pop, k).contains(v) implies 0 < v
            < k by {
            vectors::contains_pushed(before, (k - 1) as usize, v);
        }
    }
}

} // verus!
