//! Populations of districts.

use vstd::prelude::*;
use crate::graph::Graph;
use crate::partition::Plan;
use crate::recom::merge::SubgraphBuffer;
use crate::recom::proposal::{RecomProposal, Redraw};
use crate::recom::split::Rooted;
use crate::recom::{merge, split};
use crate::graph;

verus! {

/// Whether the population of each district is that of its nodes.
pub open spec fn populated(pops: Seq<u32>, plan: Plan) -> bool {
    forall|d: int|
        #![trigger plan.dist_pops[d]]
        0 <= d < plan.num_dists ==> plan.dist_pops[d] == merge::node_population(
            pops,
            plan.dist_nodes[d],
        )
}

/// Whether the populations of a proposal are those of its nodes.
pub open spec fn redraw_populated(pops: Seq<u32>, p: Redraw) -> bool {
    &&& p.a_pop == merge::node_population(pops, p.a_nodes)
    &&& p.b_pop == merge::node_population(pops, p.b_nodes)
}

/// Redrawing keeps district populations those of the nodes.
pub proof fn redrawn_is_populated(pops: Seq<u32>, plan: Plan, p: Redraw)
    requires
        plan.valid(),
        plan.admits(p),
        populated(pops, plan),
        redraw_populated(pops, p),
    ensures
        populated(pops, plan.redrawn(p)),
{
    let after = plan.redrawn(p);
    assert forall|d: int|
        #![trigger after.dist_pops[d]]
        0 <= d < after.num_dists implies after.dist_pops[d] == merge::node_population(
        pops,
        after.dist_nodes[d],
    ) by {
        if d != p.a_label && d != p.b_label {
            assert(after.dist_pops[d] == plan.dist_pops[d]);
            assert(after.dist_nodes[d] == plan.dist_nodes[d]);
        }
    }
}

/// The weights of the picked places below `k`, added up.
spec fn picked_weight(weights: Seq<u32>, pick: spec_fn(int) -> bool, k: int) -> int
    decreases k,
{
    if k <= 0 {
        0
    } else {
        picked_weight(weights, pick, k - 1) + (if pick(k - 1) {
            weights[k - 1] as int
        } else {
            0
        })
    }
}

/// Whether a list holds the nodes at the picked places below `k`.
spec fn lists_picked(
    nodes: Seq<usize>,
    listed: Seq<usize>,
    pick: spec_fn(int) -> bool,
    k: int,
) -> bool {
    &&& nodes.no_duplicates()
    &&& forall|j: int| 0 <= j < k && pick(j) ==> nodes.contains(#[trigger] listed[j])
    &&& forall|x: usize| #[trigger]
        nodes.contains(x) ==> exists|j: int| 0 <= j < k && pick(j) && #[trigger] listed[j] == x
}

proof fn picked_nodes_weigh(
    pops: Seq<u32>,
    nodes: Seq<usize>,
    listed: Seq<usize>,
    weights: Seq<u32>,
    pick: spec_fn(int) -> bool,
    k: int,
)
    requires
        0 <= k <= listed.len(),
        weights.len() == listed.len(),
        listed.no_duplicates(),
        forall|j: int| 0 <= j < k ==> #[trigger] weights[j] == pops[listed[j] as int],
        lists_picked(nodes, listed, pick, k),
    ensures
        merge::node_population(pops, nodes) == picked_weight(weights, pick, k),
    decreases k,
{
    if k == 0 {
        if nodes.len() > 0 {
            assert(nodes.contains(nodes[0]));
        }
    } else if pick(k - 1) {
        let x = listed[k - 1];
        assert(nodes.contains(x));
        let p = choose|p: int| 0 <= p < nodes.len() && nodes[p] == x;
        let rest = nodes.remove(p);
        merge::population_without(pops, nodes, p);
        assert forall|i: int, j: int| 0 <= i < rest.len() && 0 <= j < rest.len() && i != j implies rest[i]
            != rest[j] by {
            let i2 = if i < p { i } else { i + 1 };
            let j2 = if j < p { j } else { j + 1 };
            assert(nodes[i2] != nodes[j2]);
        }
        assert forall|j: int| 0 <= j < k - 1 && pick(j) implies rest.contains(
            #[trigger] listed[j],
        ) by {
            assert(nodes.contains(listed[j]));
            let q = choose|q: int| 0 <= q < nodes.len() && nodes[q] == listed[j];
            assert(listed[j] != listed[k - 1]);
            if q < p {
                assert(rest[q] == listed[j]);
            } else {
                assert(rest[q - 1] == listed[j]);
            }
        }
        assert forall|y: usize| #[trigger] rest.contains(y) implies exists|j: int|
            0 <= j < k - 1 && pick(j) && #[trigger] listed[j] == y by {
            let q = choose|q: int| 0 <= q < rest.len() && rest[q] == y;
            let q2 = if q < p { q } else { q + 1 };
            assert(nodes[q2] == y);
            assert(nodes.contains(y));
            let j = choose|j: int| 0 <= j < k && pick(j) && #[trigger] listed[j] == y;
            assert(nodes[q2] != nodes[p]);
            assert(j != k - 1);
            assert(listed[j] == y);
        }
        picked_nodes_weigh(pops, rest, listed, weights, pick, k - 1);
        assert(weights[k - 1] == pops[listed[k - 1] as int]);
    } else {
        assert forall|x: usize| #[trigger] nodes.contains(x) implies exists|j: int|
            0 <= j < k - 1 && pick(j) && #[trigger] listed[j] == x by {
            let j = choose|j: int| 0 <= j < k && pick(j) && #[trigger] listed[j] == x;
            assert(j != k - 1);
            assert(listed[j] == x);
        }
        picked_nodes_weigh(pops, nodes, listed, weights, pick, k - 1);
    }
}

proof fn picks_split(weights: Seq<u32>, parent: Seq<usize>, v: int, k: int)
    requires
        0 <= k <= weights.len(),
    ensures
        picked_weight(weights, |u: int| split::hangs_from(parent, u, v), k) == split::led_weight(
            weights,
            parent,
            v,
            0,
            k,
        ),
        picked_weight(weights, |u: int| !split::hangs_from(parent, u, v), k) == graph::population(
            weights.take(k),
        ) - split::led_weight(weights, parent, v, 0, k),
    decreases k,
{
    if k > 0 {
        picks_split(weights, parent, v, k - 1);
        assert(weights.take(k).drop_last() =~= weights.take(k - 1));
    }
}

/// The populations of a cut are those of its nodes.
pub proof fn cut_is_populated(
    whole: &Graph,
    sub: &SubgraphBuffer,
    st: Seq<Vec<usize>>,
    tree: &Rooted,
    proposal: &RecomProposal,
    v: int,
)
    requires
        merge::induced(sub, whole),
        sub.raw_nodes.len() == sub.graph.order(),
        sub.raw_nodes@.no_duplicates(),
        tree.roots(st, sub.graph.order()),
        split::cuts_at(sub, tree, proposal, v),
    ensures
        redraw_populated(whole.pops@, proposal@),
{
    let n = sub.graph.order() as int;
    let order = tree.order@;
    let weights = split::ordered_pops(sub.graph.pops@, order);
    let listed = Seq::new(n as nat, |k: int| sub.raw_nodes@[order[k] as int]);
    assert forall|i: int, j: int| 0 <= i < n && 0 <= j < n && i != j implies listed[i]
        != listed[j] by {
        assert(order[i] != order[j]);
    }
    assert forall|j: int| 0 <= j < n implies #[trigger] weights[j] == whole.pops@[listed[j] as int] by {
        assert(sub.graph.pops@[order[j] as int] == whole.pops@[sub.raw_nodes@[order[j] as int] as int]);
    }
    let hang = |u: int| split::hangs_from(tree.parent@, u, v);
    let stay = |u: int| !split::hangs_from(tree.parent@, u, v);
    assert(lists_picked(proposal.a_nodes@, listed, hang, n)) by {
        assert forall|j: int| 0 <= j < n && hang(j) implies proposal.a_nodes@.contains(
            #[trigger] listed[j],
        ) by {
            assert(split::hangs_from(tree.parent@, j, v));
            assert(proposal.a_nodes@.contains(sub.raw_nodes[tree.order[j] as int]));
        }
        assert forall|x: usize| #[trigger] proposal.a_nodes@.contains(x) implies exists|j: int|
            0 <= j < n && hang(j) && #[trigger] listed[j] == x by {
            let k = choose|k: int|
                0 <= k < n && split::hangs_from(tree.parent@, k, v)
                    && #[trigger] sub.raw_nodes[tree.order[k] as int] == x;
            assert(listed[k] == x && hang(k));
        }
    }
    assert(lists_picked(proposal.b_nodes@, listed, stay, n)) by {
        assert forall|j: int| 0 <= j < n && stay(j) implies proposal.b_nodes@.contains(
            #[trigger] listed[j],
        ) by {
            assert(!split::hangs_from(tree.parent@, j, v));
            assert(proposal.b_nodes@.contains(sub.raw_nodes[tree.order[j] as int]));
        }
        assert forall|x: usize| #[trigger] proposal.b_nodes@.contains(x) implies exists|j: int|
            0 <= j < n && stay(j) && #[trigger] listed[j] == x by {
            let k = choose|k: int|
                0 <= k < n && !split::hangs_from(tree.parent@, k, v)
                    && #[trigger] sub.raw_nodes[tree.order[k] as int] == x;
            assert(listed[k] == x && stay(k));
        }
    }
    picked_nodes_weigh(whole.pops@, proposal.a_nodes@, listed, weights, hang, n);
    picked_nodes_weigh(whole.pops@, proposal.b_nodes@, listed, weights, stay, n);
    picks_split(weights, tree.parent@, v, n);
    assert(weights.take(n) =~= weights);
}

} // verus!
