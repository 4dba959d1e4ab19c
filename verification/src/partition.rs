//! Partitions of the nodes of a graph into districts.

use vstd::prelude::*;
use crate::graph::Graph;
use crate::recom::proposal::{RecomProposal, Redraw};
use crate::vectors;

verus! {

/// A division of the nodes into districts that are numbered from 0.
#[derive(Debug)]
pub struct Partition {
    pub num_dists: u32,
    /// The district of each node.
    pub assignments: Vec<u32>,
    /// The population of each district.
    pub dist_pops: Vec<u32>,
    /// The nodes of each district.
    pub dist_nodes: Vec<Vec<usize>>,
}

/// The contents of a partition.
#[verifier::ext_equal]
pub struct Plan {
    pub num_dists: nat,
    pub assignments: Seq<u32>,
    pub dist_pops: Seq<u32>,
    pub dist_nodes: Seq<Seq<usize>>,
}

impl Plan {
    /// Each node is listed once, under the district that it is assigned to.
    pub open spec fn valid(self) -> bool {
        &&& self.num_dists <= u32::MAX
        &&& self.dist_pops.len() == self.num_dists
        &&& self.dist_nodes.len() == self.num_dists
        &&& forall|v: int|
            0 <= v < self.assignments.len() ==> (#[trigger] self.assignments[v]) < self.num_dists
        &&& forall|d: int, v: usize|
            0 <= d < self.num_dists ==> (#[trigger] self.dist_nodes[d].contains(v) <==> v
                < self.assignments.len() && self.assignments[v as int] == d)
        &&& forall|d: int|
            0 <= d < self.num_dists ==> (#[trigger] self.dist_nodes[d]).no_duplicates()
    }

    /// The proposal divides the nodes of two districts anew between them.
    pub open spec fn admits(self, p: Redraw) -> bool {
        &&& p.a_label < self.num_dists
        &&& p.b_label < self.num_dists
        &&& p.a_label != p.b_label
        &&& p.a_pop <= u32::MAX
        &&& p.b_pop <= u32::MAX
        &&& p.a_nodes.no_duplicates()
        &&& p.b_nodes.no_duplicates()
        &&& forall|v: usize|
            {
                &&& !(#[trigger] p.a_nodes.contains(v) && p.b_nodes.contains(v))
                &&& p.a_nodes.contains(v) || p.b_nodes.contains(v) <==> self.dist_nodes[p.a_label as int].contains(
                    v,
                ) || self.dist_nodes[p.b_label as int].contains(v)
            }
    }

    /// The plan with the two districts of a proposal redrawn.
    pub open spec fn redrawn(self, p: Redraw) -> Plan {
        Plan {
            num_dists: self.num_dists,
            assignments: Seq::new(
                self.assignments.len(),
                |v: int|
                    if p.a_nodes.contains(v as usize) {
                        p.a_label as u32
                    } else if p.b_nodes.contains(v as usize) {
                        p.b_label as u32
                    } else {
                        self.assignments[v]
                    },
            ),
            dist_pops: self.dist_pops.update(p.a_label as int, p.a_pop as u32).update(
                p.b_label as int,
                p.b_pop as u32,
            ),
            dist_nodes: self.dist_nodes.update(p.a_label as int, p.a_nodes).update(
                p.b_label as int,
                p.b_nodes,
            ),
        }
    }
}

/// Redrawing two districts of a valid plan gives a valid plan.
pub proof fn redrawn_is_valid(plan: Plan, p: Redraw)
    requires
        plan.valid(),
        plan.admits(p),
    ensures
        plan.redrawn(p).valid(),
{
    let after = plan.redrawn(p);
    let a = p.a_label as int;
    let b = p.b_label as int;
    assert forall|d: int, v: usize|
        0 <= d < after.num_dists implies (#[trigger] after.dist_nodes[d].contains(v) <==> v
        < after.assignments.len() && after.assignments[v as int] == d) by {
        assert(plan.dist_nodes[a].contains(v) <==> v < plan.assignments.len()
            && plan.assignments[v as int] == a);
        assert(plan.dist_nodes[b].contains(v) <==> v < plan.assignments.len()
            && plan.assignments[v as int] == b);
        assert(plan.dist_nodes[d].contains(v) <==> v < plan.assignments.len()
            && plan.assignments[v as int] == d);
        assert(!(p.a_nodes.contains(v) && p.b_nodes.contains(v)));
    }
    assert forall|v: int| 0 <= v < after.assignments.len() implies (#[trigger] after.assignments[v])
        < after.num_dists by {
        assert(plan.assignments[v] < plan.num_dists);
    }
    assert forall|d: int| 0 <= d < after.num_dists implies (
    #[trigger] after.dist_nodes[d]).no_duplicates() by {
        assert(plan.dist_nodes[d].no_duplicates());
    }
}

impl View for Partition {
    type V = Plan;

    open spec fn view(&self) -> Plan {
        Plan {
            num_dists: self.num_dists as nat,
            assignments: self.assignments@,
            dist_pops: self.dist_pops@,
            dist_nodes: vectors::nested(self.dist_nodes@),
        }
    }
}

impl Clone for Partition {
    fn clone(&self) -> (r: Partition)
        ensures
            r@ == self@,
    {
        Partition {
            num_dists: self.num_dists,
            assignments: vectors::copied(&self.assignments),
            dist_pops: vectors::copied(&self.dist_pops),
            dist_nodes: vectors::copied_nested(&self.dist_nodes),
        }
    }
}

/// The labels written over the listed nodes.
pub open spec fn relabeled(assignments: Seq<u32>, nodes: Seq<usize>, label: u32) -> Seq<u32> {
    Seq::new(
        assignments.len(),
        |v: int|
            if nodes.contains(v as usize) {
                label
            } else {
                assignments[v]
            },
    )
}

fn relabel(assignments: &mut Vec<u32>, nodes: &Vec<usize>, label: u32)
    requires
        forall|i: int| 0 <= i < nodes.len() ==> (#[trigger] nodes[i]) < old(assignments).len(),
    ensures
        final(assignments)@ == relabeled(old(assignments)@, nodes@, label),
{
    let ghost start = assignments@;
    let mut i: usize = 0;
    assert(relabeled(start, nodes@.take(0), label) =~= start);
    while i < nodes.len()
        invariant
            i <= nodes.len(),
            assignments.len() == start.len(),
            forall|j: int| 0 <= j < nodes.len() ==> (#[trigger] nodes[j]) < start.len(),
            assignments@ == relabeled(start, nodes@.take(i as int), label),
        decreases nodes.len() - i,
    {
        assignments.set(nodes[i], label);
        i += 1;
        let ghost small = nodes@.take(i - 1);
        let ghost large = nodes@.take(i as int);
        assert(large =~= small.push(nodes@[i - 1]));
        assert forall|v: int| 0 <= v < start.len() implies #[trigger] assignments@[v]
            == relabeled(start, large, label)[v] by {
            vectors::contains_pushed(small, nodes@[i - 1], v as usize);
        }
        assert(assignments@ =~= relabeled(start, large, label));
    }
    assert(nodes@.take(i as int) =~= nodes@);
}

impl Partition {
    /// Applies a proposal: its two districts take its nodes and populations.
    pub fn update(&mut self, proposal: &RecomProposal)
        requires
            old(self)@.valid(),
            old(self)@.admits(proposal@),
        ensures
            final(self)@ == old(self)@.redrawn(proposal@),
            final(self)@.valid(),
    {
        let ghost before = self@;
        let ghost p = proposal@;
        let a: usize = proposal.a_label;
        let b: usize = proposal.b_label;
        proof {
            redrawn_is_valid(before, p);
            assert forall|i: int| 0 <= i < p.a_nodes.len() implies (#[trigger] p.a_nodes[i])
                < before.assignments.len() by {
                assert(p.a_nodes.contains(p.a_nodes[i]));
            }
            assert forall|i: int| 0 <= i < p.b_nodes.len() implies (#[trigger] p.b_nodes[i])
                < before.assignments.len() by {
                assert(p.b_nodes.contains(p.b_nodes[i]));
                assert(!p.a_nodes.contains(p.b_nodes[i]));
            }
        }
        relabel(&mut self.assignments, &proposal.a_nodes, a as u32);
        relabel(&mut self.assignments, &proposal.b_nodes, b as u32);
        self.dist_pops.set(a, proposal.a_pop);
        self.dist_pops.set(b, proposal.b_pop);
        let a_nodes: Vec<usize> = vectors::copied(&proposal.a_nodes);
        let b_nodes: Vec<usize> = vectors::copied(&proposal.b_nodes);
        self.dist_nodes.set(a, a_nodes);
        self.dist_nodes.set(b, b_nodes);
        assert(self@.assignments =~= before.redrawn(p).assignments) by {
            assert forall|v: int| 0 <= v < before.assignments.len() implies #[trigger] self@.assignments[v]
                == before.redrawn(p).assignments[v] by {
                assert(!(p.a_nodes.contains(v as usize) && p.b_nodes.contains(v as usize)));
            }
        }
        assert(self@.dist_nodes =~= before.redrawn(p).dist_nodes);
        assert(self@ =~= before.redrawn(p));
    }
}

/// After a redrawing, the nodes of each new district are assigned to it, every
/// other node stays where it was, and other districts keep their nodes and
/// populations.
pub proof fn redrawing_moves_two_districts_only(plan: Plan, p: Redraw, v: int, d: int)
    requires
        plan.valid(),
        plan.admits(p),
        0 <= v < plan.assignments.len() <= usize::MAX,
        0 <= d < plan.num_dists,
    ensures
        plan.redrawn(p).assignments.len() == plan.assignments.len(),
        plan.redrawn(p).assignments[v] == p.a_label <==> p.a_nodes.contains(v as usize),
        plan.redrawn(p).assignments[v] == p.b_label <==> p.b_nodes.contains(v as usize),
        plan.assignments[v] != p.a_label && plan.assignments[v] != p.b_label ==> plan.redrawn(
            p,
        ).assignments[v] == plan.assignments[v],
        plan.redrawn(p).dist_nodes[p.a_label as int] == p.a_nodes,
        plan.redrawn(p).dist_nodes[p.b_label as int] == p.b_nodes,
        plan.redrawn(p).dist_pops[p.a_label as int] == p.a_pop,
        plan.redrawn(p).dist_pops[p.b_label as int] == p.b_pop,
        d != p.a_label && d != p.b_label ==> plan.redrawn(p).dist_nodes[d] == plan.dist_nodes[d]
            && plan.redrawn(p).dist_pops[d] == plan.dist_pops[d],
{
    let x = v as usize;
    let a = p.a_label as int;
    let b = p.b_label as int;
    assert(plan.dist_nodes[a].contains(x) <==> x < plan.assignments.len()
        && plan.assignments[x as int] == a);
    assert(plan.dist_nodes[b].contains(x) <==> x < plan.assignments.len()
        && plan.assignments[x as int] == b);
    assert(!(p.a_nodes.contains(x) && p.b_nodes.contains(x)));
}

/// A redrawing is undone by redrawing the two districts as they were.
pub proof fn redrawing_can_be_undone(plan: Plan, p: Redraw, back: Redraw)
    requires
        plan.valid(),
        plan.admits(p),
        plan.assignments.len() <= usize::MAX,
        back.a_label == p.a_label,
        back.b_label == p.b_label,
        back.a_nodes == plan.dist_nodes[p.a_label as int],
        back.b_nodes == plan.dist_nodes[p.b_label as int],
        back.a_pop == plan.dist_pops[p.a_label as int],
        back.b_pop == plan.dist_pops[p.b_label as int],
    ensures
        plan.redrawn(p).admits(back),
        plan.redrawn(p).redrawn(back) == plan,
{
    let a = p.a_label as int;
    let b = p.b_label as int;
    let after = plan.redrawn(p);
    assert(plan.dist_nodes[a].no_duplicates() && plan.dist_nodes[b].no_duplicates());
    assert forall|v: usize|
        {
            &&& !(#[trigger] back.a_nodes.contains(v) && back.b_nodes.contains(v))
            &&& back.a_nodes.contains(v) || back.b_nodes.contains(v)
                <==> after.dist_nodes[a].contains(v) || after.dist_nodes[b].contains(v)
        } by {
        assert(plan.dist_nodes[a].contains(v) <==> v < plan.assignments.len()
            && plan.assignments[v as int] == a);
        assert(plan.dist_nodes[b].contains(v) <==> v < plan.assignments.len()
            && plan.assignments[v as int] == b);
        assert(!(p.a_nodes.contains(v) && p.b_nodes.contains(v)));
    }
    let twice = after.redrawn(back);
    assert forall|v: int| 0 <= v < plan.assignments.len() implies twice.assignments[v]
        == plan.assignments[v] by {
        let x = v as usize;
        assert(plan.dist_nodes[a].contains(x) <==> x < plan.assignments.len()
            && plan.assignments[x as int] == a);
        assert(plan.dist_nodes[b].contains(x) <==> x < plan.assignments.len()
            && plan.assignments[x as int] == b);
        assert(!(p.a_nodes.contains(x) && p.b_nodes.contains(x)));
    }
    assert(twice.assignments =~= plan.assignments);
    assert(twice.dist_nodes =~= plan.dist_nodes);
    assert(twice.dist_pops =~= plan.dist_pops);
}

} // verus!
