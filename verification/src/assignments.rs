//! Plans from the district labels of nodes.

use vstd::prelude::*;
use crate::graph::Graph;
use crate::partition::{Partition, Plan};
use crate::recom::{merge, populations};
use crate::stats::sums;
use crate::vectors;

verus! {

/// The smallest label.
pub open spec fn lowest(labels: Seq<u32>) -> int
    decreases labels.len(),
{
    if labels.len() <= 1 {
        labels[0] as int
    } else if labels.last() < lowest(labels.drop_last()) {
        labels.last() as int
    } else {
        lowest(labels.drop_last())
    }
}

/// The largest label.
pub open spec fn highest(labels: Seq<u32>) -> int
    decreases labels.len(),
{
    if labels.len() <= 1 {
        labels[0] as int
    } else if labels.last() > highest(labels.drop_last()) {
        labels.last() as int
    } else {
        highest(labels.drop_last())
    }
}

/// Whether each label between the smallest and the largest is taken.
pub open spec fn gapless(labels: Seq<u32>) -> bool {
    forall|label: u32|
        lowest(labels) <= label <= highest(labels) ==> #[trigger] labels.contains(label)
}

/// The labels counted from the smallest.
pub open spec fn from_zero(labels: Seq<u32>) -> Seq<u32> {
    Seq::new(labels.len(), |v: int| (labels[v] - lowest(labels)) as u32)
}

/// The nodes below `k` in a district, in order.
pub open spec fn members(assignments: Seq<u32>, d: int, k: int) -> Seq<usize>
    decreases k,
{
    if k <= 0 {
        Seq::empty()
    } else if assignments[k - 1] == d {
        members(assignments, d, k - 1).push((k - 1) as usize)
    } else {
        members(assignments, d, k - 1)
    }
}

/// Whether a plan takes its districts from labels: nodes with the same label
/// share a district, districts are numbered by label, and their nodes are
/// listed in order.
pub open spec fn assigned(graph: &Graph, labels: Seq<u32>, plan: Plan) -> bool {
    &&& plan.num_dists == highest(labels) - lowest(labels) + 1
    &&& plan.assignments == from_zero(labels)
    &&& plan.dist_nodes.len() == plan.num_dists
    &&& forall|d: int|
        0 <= d < plan.num_dists ==> #[trigger] plan.dist_nodes[d] == members(
            from_zero(labels),
            d,
            labels.len() as int,
        )
    &&& populations::populated(graph.pops@, plan)
}

proof fn members_are_listed(assignments: Seq<u32>, d: int, k: int)
    requires
        0 <= k <= assignments.len() <= usize::MAX,
    ensures
        forall|v: usize| #[trigger]
            members(assignments, d, k).contains(v) <==> v < k && assignments[v as int] == d,
        members(assignments, d, k).no_duplicates(),
        members(assignments, d, k).len() <= k,
    decreases k,
{
    if k > 0 {
        members_are_listed(assignments, d, k - 1);
        let before = members(assignments, d, k - 1);
        if assignments[k - 1] == d {
            assert forall|v: usize| #[trigger]
                members(assignments, d, k).contains(v) <==> v < k && assignments[v as int] == d by {
                vectors::contains_pushed(before, (k - 1) as usize, v);
            }
            assert(!before.contains((k - 1) as usize));
        }
    }
}

proof fn label_bounds(labels: Seq<u32>)
    requires
        labels.len() > 0,
    ensures
        forall|v: int|
            0 <= v < labels.len() ==> lowest(labels) <= #[trigger] labels[v] <= highest(labels),
        0 <= lowest(labels) <= highest(labels) <= u32::MAX,
    decreases labels.len(),
{
    if labels.len() > 1 {
        let before = labels.drop_last();
        label_bounds(before);
        assert forall|v: int| 0 <= v < labels.len() implies lowest(labels) <= #[trigger] labels[v]
            <= highest(labels) by {
            if v < labels.len() - 1 {
                assert(before[v] == labels[v]);
            }
        }
    }
}

/// Labels without gaps are no more than the nodes.
proof fn gapless_labels_are_few(labels: Seq<u32>)
    requires
        0 < labels.len() <= usize::MAX,
        gapless(labels),
    ensures
        highest(labels) - lowest(labels) + 1 <= labels.len(),
{
    label_bounds(labels);
    let low = lowest(labels);
    let count = (highest(labels) - low + 1) as nat;
    let places = Seq::new(
        count,
        |d: int|
            (choose|v: int| 0 <= v < labels.len() && labels[v] == (low + d) as u32) as usize,
    );
    assert forall|d: int| 0 <= d < count implies (#[trigger] places[d]) < labels.len()
        && labels[places[d] as int] == low + d by {
        assert(labels.contains((low + d) as u32));
        let v = choose|v: int| 0 <= v < labels.len() && labels[v] == (low + d) as u32;
        assert(0 <= v < labels.len() && labels[v] == (low + d) as u32);
    }
    assert(places.no_duplicates()) by {
        assert forall|i: int, j: int|
            0 <= i < places.len() && 0 <= j < places.len() && i != j implies places[i]
            != places[j] by {
            assert(labels[places[i] as int] == low + i);
            assert(labels[places[j] as int] == low + j);
        }
    }
    sums::distinct_indices_are_few(places, labels.len());
}

/// Why labels make no plan, if they make none.
pub open spec fn refusal(graph: &Graph, labels: Seq<u32>) -> Option<Seq<char>> {
    if labels.len() != graph.order() {
        Some("Assignment length does not match the number of nodes."@)
    } else if labels.len() == 0 {
        Some("Cannot partition a graph without nodes."@)
    } else if !gapless(labels) {
        Some("Every district must have at least one node."@)
    } else {
        None
    }
}

impl Partition {
    /// A plan from the label of each node. Labels may start anywhere, so both
    /// labels from 0 and labels from 1 are taken.
    pub fn from_assignments(graph: &Graph, labels: &Vec<u32>) -> (r: Result<Partition, String>)
        requires
            graph.sound(),
        ensures
            match refusal(graph, labels@) {
                Some(message) => r matches Err(e) && e@ == message,
                None => r matches Ok(p) && p@.valid() && assigned(graph, labels@, p@),
            },
    {
        let n: usize = labels.len();
        if n != graph.pops.len() {
            return Err("Assignment length does not match the number of nodes.".to_string());
        }
        if n == 0 {
            return Err("Cannot partition a graph without nodes.".to_string());
        }
        let mut low: u32 = labels[0];
        let mut high: u32 = labels[0];
        let mut v: usize = 1;
        assert(labels@.take(1).drop_last().len() == 0);
        while v < n
            invariant
                1 <= v <= n,
                n == labels.len(),
                low == lowest(labels@.take(v as int)),
                high == highest(labels@.take(v as int)),
            decreases n - v,
        {
            let label: u32 = labels[v];
            assert(labels@.take(v + 1).drop_last() =~= labels@.take(v as int));
            if label < low {
                low = label;
            }
            if label > high {
                high = label;
            }
            v += 1;
        }
        assert(labels@.take(v as int) =~= labels@);
        proof {
            label_bounds(labels@);
        }
        let ghost all = from_zero(labels@);
        if (high - low) as usize >= n {
            proof {
                if gapless(labels@) {
                    gapless_labels_are_few(labels@);
                }
            }
            return Err("Every district must have at least one node.".to_string());
        }
        let count: u32 = high - low + 1;
        let mut dist_nodes: Vec<Vec<usize>> = Vec::new();
        let mut dist_pops: Vec<u32> = Vec::new();
        let mut d: u32 = 0;
        while d < count
            invariant
                d <= count,
                dist_nodes.len() == d,
                dist_pops.len() == d,
                forall|j: int| 0 <= j < d ==> (#[trigger] dist_nodes[j])@ == Seq::<usize>::empty(),
                forall|j: int| 0 <= j < d ==> #[trigger] dist_pops[j] == 0,
            decreases count - d,
        {
            dist_nodes.push(Vec::new());
            dist_pops.push(0);
            d += 1;
        }
        let mut assignments: Vec<u32> = Vec::new();
        v = 0;
        while v < n
            invariant
                v <= n,
                n == labels.len(),
                n == graph.pops.len(),
                graph.sound(),
                low == lowest(labels@),
                high == highest(labels@),
                count == high - low + 1,
                all == from_zero(labels@),
                forall|u: int| 0 <= u < n ==> low <= #[trigger] labels[u] <= high,
                assignments@ == all.take(v as int),
                dist_nodes.len() == count,
                dist_pops.len() == count,
                forall|j: int|
                    0 <= j < count ==> (#[trigger] dist_nodes[j])@ == members(all, j, v as int),
                forall|j: int|
                    0 <= j < count ==> #[trigger] dist_pops[j] == merge::node_population(
                        graph.pops@,
                        members(all, j, v as int),
                    ),
            decreases n - v,
        {
            let label: u32 = labels[v] - low;
            let place: usize = label as usize;
            let ghost pops_before = dist_pops@;
            let ghost nodes_before = dist_nodes@;
            proof {
                members_are_listed(all, label as int, v + 1);
                let more = members(all, label as int, v + 1);
                assert(more.drop_last() =~= members(all, label as int, v as int));
                assert forall|i: int| 0 <= i < more.len() implies (#[trigger] more[i])
                    < graph.pops@.len() by {
                    assert(more.contains(more[i]));
                }
                merge::distinct_nodes_fit(graph.pops@, more);
            }
            let grown: u32 = dist_pops[place] + graph.pops[v];
            dist_pops.set(place, grown);
            let mut nodes: Vec<usize> = Vec::new();
            std::mem::swap(&mut nodes, &mut dist_nodes[place]);
            nodes.push(v);
            dist_nodes.set(place, nodes);
            assignments.push(label);
            v += 1;
            assert(assignments@ =~= all.take(v as int));
            assert forall|j: int| 0 <= j < count implies (#[trigger] dist_nodes[j])@ == members(
                all,
                j,
                v as int,
            ) by {
                assert(nodes_before[j]@ == members(all, j, v - 1));
            }
            assert forall|j: int| 0 <= j < count implies #[trigger] dist_pops[j]
                == merge::node_population(graph.pops@, members(all, j, v as int)) by {
                assert(pops_before[j] == merge::node_population(
                    graph.pops@,
                    members(all, j, v - 1),
                ));
            }
        }
        assert(all.take(v as int) =~= all);
        d = 0;
        while d < count
            invariant
                d <= count,
                n == labels.len(),
                n == graph.order(),
                n > 0,
                low == lowest(labels@),
                high == highest(labels@),
                count == high - low + 1,
                all == from_zero(labels@),
                forall|u: int| 0 <= u < n ==> low <= #[trigger] labels[u] <= high,
                dist_nodes.len() == count,
                forall|j: int|
                    0 <= j < count ==> (#[trigger] dist_nodes[j])@ == members(all, j, n as int),
                forall|j: int| 0 <= j < d ==> (#[trigger] dist_nodes[j])@.len() > 0,
            decreases count - d,
        {
            if dist_nodes[d as usize].len() == 0 {
                proof {
                    members_are_listed(all, d as int, n as int);
                    let label = (low + d) as u32;
                    if labels@.contains(label) {
                        let u = choose|u: int| 0 <= u < n && labels@[u] == label;
                        assert(all[u] == d);
                        assert(members(all, d as int, n as int).contains(u as usize));
                    }
                    assert(!labels@.contains(label));
                }
                return Err("Every district must have at least one node.".to_string());
            }
            d += 1;
        }
        let r: Partition = Partition { num_dists: count, assignments, dist_pops, dist_nodes };
        proof {
            assert forall|label: u32|
                lowest(labels@) <= label <= highest(labels@) implies #[trigger] labels@.contains(
                label,
            ) by {
                let j = label - low;
                members_are_listed(all, j, n as int);
                assert(dist_nodes[j]@.len() > 0);
                let u = members(all, j, n as int)[0];
                assert(members(all, j, n as int).contains(u));
                assert(labels@[u as int] == label);
            }
            let plan = r@;
            assert forall|j: int, u: usize|
                0 <= j < plan.num_dists implies (#[trigger] plan.dist_nodes[j].contains(u) <==> u
                < plan.assignments.len() && plan.assignments[u as int] == j) by {
                members_are_listed(all, j, n as int);
                assert(plan.dist_nodes[j] == members(all, j, n as int));
            }
            assert forall|j: int| 0 <= j < plan.num_dists implies (
            #[trigger] plan.dist_nodes[j]).no_duplicates() by {
                members_are_listed(all, j, n as int);
            }
            assert forall|u: int| 0 <= u < plan.assignments.len() implies (
            #[trigger] plan.assignments[u]) < plan.num_dists by {
                assert(low <= labels[u] <= high);
            }
        }
        Ok(r)
    }
}

proof fn lowest_is_a_label(labels: Seq<u32>) -> (v: int)
    requires
        labels.len() > 0,
    ensures
        0 <= v < labels.len(),
        labels[v] == lowest(labels),
    decreases labels.len(),
{
    if labels.len() <= 1 {
        0
    } else if labels.last() < lowest(labels.drop_last()) {
        labels.len() - 1
    } else {
        lowest_is_a_label(labels.drop_last())
    }
}

/// Nodes share a district exactly where they share a label, districts are in
/// the order of the labels and as far apart, and the first has a node. A
/// district lists its nodes, and no others, from the lowest to the highest.
pub proof fn labels_decide_the_districts(graph: &Graph, labels: Seq<u32>, plan: Plan)
    requires
        0 < labels.len() <= usize::MAX,
        assigned(graph, labels, plan),
    ensures
        plan.assignments.len() == labels.len(),
        forall|u: int, v: int|
            #![trigger plan.assignments[u], plan.assignments[v]]
            0 <= u < labels.len() && 0 <= v < labels.len() ==> plan.assignments[u]
                - plan.assignments[v] == labels[u] - labels[v],
        exists|v: int| 0 <= v < labels.len() && #[trigger] plan.assignments[v] == 0,
        forall|d: int, v: usize|
            0 <= d < plan.num_dists ==> (#[trigger] plan.dist_nodes[d].contains(v) <==> v
                < labels.len() && plan.assignments[v as int] == d),
        forall|d: int, i: int, j: int|
            0 <= d < plan.num_dists && 0 <= i < j < plan.dist_nodes[d].len()
                ==> #[trigger] plan.dist_nodes[d][i] < #[trigger] plan.dist_nodes[d][j],
{
    label_bounds(labels);
    let lowest_node = lowest_is_a_label(labels);
    assert(plan.assignments[lowest_node] == 0);
    assert forall|d: int, v: usize| 0 <= d < plan.num_dists implies (
    #[trigger] plan.dist_nodes[d].contains(v) <==> v < labels.len() && plan.assignments[v as int]
        == d) by {
        members_are_listed(from_zero(labels), d, labels.len() as int);
    }
    assert forall|d: int, i: int, j: int|
        0 <= d < plan.num_dists && 0 <= i < j
            < plan.dist_nodes[d].len() implies #[trigger] plan.dist_nodes[d][i]
        < #[trigger] plan.dist_nodes[d][j] by {
        members_ascend(from_zero(labels), d, labels.len() as int);
    }
}

proof fn members_ascend(assignments: Seq<u32>, d: int, k: int)
    requires
        0 <= k <= assignments.len() <= usize::MAX,
    ensures
        forall|i: int, j: int|
            0 <= i < j < members(assignments, d, k).len() ==> #[trigger] members(assignments, d, k)[i]
                < #[trigger] members(assignments, d, k)[j],
    decreases k,
{
    if k > 0 {
        members_ascend(assignments, d, k - 1);
        members_are_listed(assignments, d, k - 1);
        let before = members(assignments, d, k - 1);
        assert forall|i: int| 0 <= i < before.len() implies #[trigger] before[i] < k - 1 by {
            assert(before.contains(before[i]));
        }
    }
}

/// Where the labels start does not matter.
pub proof fn labels_may_start_anywhere(labels: Seq<u32>, shifted: Seq<u32>, by: int)
    requires
        labels.len() > 0,
        shifted.len() == labels.len(),
        forall|v: int| 0 <= v < labels.len() ==> #[trigger] shifted[v] == labels[v] + by,
    ensures
        from_zero(shifted) == from_zero(labels),
        highest(shifted) - lowest(shifted) == highest(labels) - lowest(labels),
{
    bounds_shift(labels, shifted, by);
    assert(from_zero(shifted) =~= from_zero(labels));
}

proof fn bounds_shift(labels: Seq<u32>, shifted: Seq<u32>, by: int)
    requires
        labels.len() > 0,
        shifted.len() == labels.len(),
        forall|v: int| 0 <= v < labels.len() ==> #[trigger] shifted[v] == labels[v] + by,
    ensures
        lowest(shifted) == lowest(labels) + by,
        highest(shifted) == highest(labels) + by,
    decreases labels.len(),
{
    if labels.len() > 1 {
        bounds_shift(labels.drop_last(), shifted.drop_last(), by);
    }
    assert(shifted[labels.len() - 1] == labels[labels.len() - 1] + by);
    assert(shifted[0] == labels[0] + by);
}

} // verus!
