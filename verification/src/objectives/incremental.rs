//! What every objective offers.

use vstd::prelude::*;
use crate::double::Double;
use crate::graph::Graph;
use crate::partition::{Partition, Plan};
use crate::recom::proposal::{RecomProposal, Redraw};
use crate::stats::sums;

verus! {

/// An objective that is scored from what is kept about each district.
pub trait IncrementalObjective: Sized {
    /// What is kept about the districts of a plan.
    type State;

    /// Whether plans on a graph can be scored.
    spec fn measures(&self, graph: &Graph, plan: Plan) -> bool;

    /// Whether the columns that proposals are scored by were read.
    spec fn prepared(&self, graph: &Graph) -> bool;

    /// Whether a state is that of a plan.
    spec fn tracks(&self, graph: &Graph, plan: Plan, state: Self::State) -> bool;

    /// Whether a state is that of a plan as it is built from scratch.
    spec fn fresh(&self, graph: &Graph, plan: Plan, state: Self::State) -> bool;

    /// Whether a number is the score of a plan from scratch.
    spec fn rates(&self, graph: &Graph, plan: Plan, score: Double) -> bool;

    /// Whether a state is of this objective's kind.
    spec fn suits(&self, state: Self::State) -> bool;

    /// Whether a proposal can be applied to a state.
    spec fn accepts(&self, graph: &Graph, state: Self::State, p: Redraw) -> bool;

    /// Whether applying a proposal takes one state to another.
    spec fn applied(
        &self,
        graph: &Graph,
        before: Self::State,
        p: Redraw,
        after: Self::State,
    ) -> bool;

    /// The score that a state represents.
    spec fn state_score(&self, state: Self::State) -> Double;

    /// The score of each district that a state represents.
    spec fn state_district_scores(&self, state: Self::State) -> Seq<Double>;

    /// A state that was built from scratch represents the score of its plan.
    proof fn fresh_state_rates(&self, graph: &Graph, plan: Plan, state: Self::State)
        requires
            self.fresh(graph, plan, state),
        ensures
            self.tracks(graph, plan, state),
            self.suits(state),
            self.rates(graph, plan, self.state_score(state)),
    ;

    /// A state that applying a proposal leads to is a state of the redrawn
    /// plan.
    proof fn applied_state_tracks(
        &self,
        graph: &Graph,
        plan: Plan,
        before: Self::State,
        p: Redraw,
        after: Self::State,
    )
        requires
            plan.valid(),
            plan.admits(p),
            plan.assignments.len() == graph.order(),
            self.prepared(graph),
            self.measures(graph, plan),
            self.tracks(graph, plan, before),
            self.suits(before),
            self.accepts(graph, before, p),
            self.applied(graph, before, p, after),
        ensures
            self.tracks(graph, plan.redrawn(p), after),
            self.suits(after),
    ;

    /// The state of a plan accepts every redrawing of the plan.
    proof fn tracked_state_accepts(
        &self,
        graph: &Graph,
        plan: Plan,
        state: Self::State,
        p: Redraw,
    )
        requires
            graph.sound(),
            self.measures(graph, plan),
            plan.valid(),
            plan.assignments.len() == graph.order(),
            plan.admits(p),
            self.tracks(graph, plan, state),
            self.suits(state),
        ensures
            self.accepts(graph, state, p),
    ;

    /// A redrawn plan can be scored where the plan can.
    proof fn redrawn_is_measured(&self, graph: &Graph, plan: Plan, p: Redraw)
        requires
            plan.valid(),
            plan.admits(p),
            self.measures(graph, plan),
        ensures
            self.measures(graph, plan.redrawn(p)),
    ;

    /// Builds the state of a plan from scratch.
    fn init(&self, graph: &Graph, partition: &Partition) -> (r: Self::State)
        requires
            graph.sound(),
            partition@.valid(),
            partition@.assignments.len() == graph.order(),
            self.measures(graph, partition@),
        ensures
            self.fresh(graph, partition@, r),
            self.rates(graph, partition@, self.state_score(r)),
            self.tracks(graph, partition@, r),
            self.suits(r),
    ;

    /// The score that a state represents.
    fn score_state(&self, state: &Self::State) -> (r: Double)
        requires
            self.suits(*state),
        ensures
            r == self.state_score(*state),
    ;

    /// The score that applying a proposal would lead to.
    fn score_proposal(&self, graph: &Graph, current: &Self::State, proposal: &RecomProposal) -> (r:
        Double)
        requires
            graph.sound(),
            self.prepared(graph),
            self.suits(*current),
            self.accepts(graph, *current, proposal@),
        ensures
            exists|next: Self::State| #[trigger]
                self.applied(graph, *current, proposal@, next) && r == self.state_score(next),
    ;

    /// Applies a proposal to a state.
    fn apply_proposal(&self, graph: &Graph, state: &mut Self::State, proposal: &RecomProposal)
        requires
            graph.sound(),
            self.prepared(graph),
            self.suits(*old(state)),
            self.accepts(graph, *old(state), proposal@),
        ensures
            self.applied(graph, *old(state), proposal@, *final(state)),
    ;

    /// The score of each district that a state represents; none for objectives
    /// without district scores.
    fn district_scores(&self, state: &Self::State) -> (r: Vec<Double>)
        requires
            self.suits(*state),
        ensures
            r@ == self.state_district_scores(*state),
    ;

    /// Scores a plan from scratch.
    fn score_partition(&self, graph: &Graph, partition: &Partition) -> (r: Double)
        requires
            graph.sound(),
            partition@.valid(),
            partition@.assignments.len() == graph.order(),
            self.measures(graph, partition@),
        ensures
            self.rates(graph, partition@, r),
    {
        let state: Self::State = self.init(graph, partition);
        self.score_state(&state)
    }
}

/// Whether a state arises along plans: built from scratch for the first, then
/// changed by one redrawing after another.
pub open spec fn arises<O: IncrementalObjective>(
    objective: &O,
    graph: &Graph,
    trail: Seq<Plan>,
    state: O::State,
) -> bool
    decreases trail.len(),
{
    if trail.len() <= 1 {
        trail.len() == 1 && objective.fresh(graph, trail[0], state)
    } else {
        exists|before: O::State, p: Redraw|
            {
                &&& #[trigger] objective.applied(graph, before, p, state)
                &&& arises(objective, graph, trail.drop_last(), before)
                &&& trail.drop_last().last().admits(p)
                &&& trail.last() == trail.drop_last().last().redrawn(p)
            }
    }
}

/// A state that arises along plans and is changed by one more redrawing arises
/// along these plans and the redrawn one.
pub proof fn arises_further<O: IncrementalObjective>(
    objective: &O,
    graph: &Graph,
    trail: Seq<Plan>,
    before: O::State,
    p: Redraw,
    after: O::State,
)
    requires
        trail.len() > 0,
        arises(objective, graph, trail, before),
        trail.last().admits(p),
        objective.applied(graph, before, p, after),
    ensures
        arises(objective, graph, trail.push(trail.last().redrawn(p)), after),
{
    assert(trail.push(trail.last().redrawn(p)).drop_last() =~= trail);
}

} // verus!
