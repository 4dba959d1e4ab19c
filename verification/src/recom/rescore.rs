//! Scoring by an arbitrary function of a plan.

use vstd::prelude::*;
use crate::double::Double;
use crate::graph::Graph;
use crate::objectives::incremental::IncrementalObjective;
use crate::partition;
use crate::partition::{Partition, Plan};
use crate::recom::proposal::{RecomProposal, Redraw};

verus! {

/// Scores every plan anew by a function of the graph and the plan.
pub struct FullRescoreBackend<G> {
    pub obj_fn: G,
}

/// A plan and its score.
#[derive(Debug)]
pub struct RescoredState {
    pub partition: Partition,
    pub score: Double,
}

impl<G: Fn(&Graph, &Partition) -> Double> FullRescoreBackend<G> {
    /// Whether the function may give this score to a plan.
    pub open spec fn gives(&self, graph: &Graph, partition: &Partition, score: Double) -> bool {
        call_ensures(self.obj_fn, (graph, partition), score)
    }

    /// Whether the function scores every plan on a graph.
    pub open spec fn scores_all(&self, graph: &Graph) -> bool {
        forall|p: &Partition| #[trigger] call_requires(self.obj_fn, (graph, p))
    }
}

impl<G: Fn(&Graph, &Partition) -> Double> IncrementalObjective for FullRescoreBackend<G> {
    type State = RescoredState;

    open spec fn measures(&self, graph: &Graph, plan: Plan) -> bool {
        self.scores_all(graph)
    }

    open spec fn prepared(&self, graph: &Graph) -> bool {
        self.scores_all(graph)
    }

    open spec fn tracks(&self, graph: &Graph, plan: Plan, state: RescoredState) -> bool {
        &&& state.partition@ == plan
        &&& plan.valid()
        &&& self.rates(graph, plan, state.score)
    }

    open spec fn fresh(&self, graph: &Graph, plan: Plan, state: RescoredState) -> bool {
        self.tracks(graph, plan, state)
    }

    open spec fn rates(&self, graph: &Graph, plan: Plan, score: Double) -> bool {
        exists|partition: Partition|
            partition@ == plan && #[trigger] self.gives(graph, &partition, score)
    }

    open spec fn suits(&self, state: RescoredState) -> bool {
        state.partition@.valid()
    }

    open spec fn accepts(&self, graph: &Graph, state: RescoredState, p: Redraw) -> bool {
        state.partition@.admits(p)
    }

    open spec fn applied(
        &self,
        graph: &Graph,
        before: RescoredState,
        p: Redraw,
        after: RescoredState,
    ) -> bool {
        &&& after.partition@ == before.partition@.redrawn(p)
        &&& self.rates(graph, after.partition@, after.score)
    }

    open spec fn state_score(&self, state: RescoredState) -> Double {
        state.score
    }

    open spec fn state_district_scores(&self, state: RescoredState) -> Seq<Double> {
        Seq::empty()
    }

    proof fn fresh_state_rates(&self, graph: &Graph, plan: Plan, state: RescoredState) {
        assert(self.fresh(graph, plan, state));
        assert(self.suits(state));
        assert(self.rates(graph, plan, self.state_score(state)));
    }

    proof fn applied_state_tracks(
        &self,
        graph: &Graph,
        plan: Plan,
        before: RescoredState,
        p: Redraw,
        after: RescoredState,
    ) {
        partition::redrawn_is_valid(plan, p);
    }

    proof fn tracked_state_accepts(
        &self,
        graph: &Graph,
        plan: Plan,
        state: RescoredState,
        p: Redraw,
    ) {
    }

    proof fn redrawn_is_measured(&self, graph: &Graph, plan: Plan, p: Redraw) {
    }

    fn init(&self, graph: &Graph, partition: &Partition) -> (r: RescoredState) {
        let score: Double = (self.obj_fn)(graph, partition);
        assert(self.gives(graph, partition, score));
        let r: RescoredState = RescoredState { partition: partition.clone(), score };
        assert(self.tracks(graph, partition@, r));
        proof {
            self.fresh_state_rates(graph, partition@, r);
        }
        r
    }

    fn score_state(&self, state: &RescoredState) -> (r: Double) {
        state.score
    }

    fn score_proposal(
        &self,
        graph: &Graph,
        current: &RescoredState,
        proposal: &RecomProposal,
    ) -> (r: Double) {
        let mut next: RescoredState = RescoredState {
            partition: current.partition.clone(),
            score: current.score,
        };
        self.apply_proposal(graph, &mut next, proposal);
        assert(self.applied(graph, *current, proposal@, next));
        next.score
    }

    fn apply_proposal(&self, graph: &Graph, state: &mut RescoredState, proposal: &RecomProposal) {
        state.partition.update(proposal);
        let score: Double = (self.obj_fn)(graph, &state.partition);
        assert(self.gives(graph, &state.partition, score));
        state.score = score;
    }

    fn district_scores(&self, state: &RescoredState) -> (r: Vec<Double>) {
        Vec::new()
    }
}

} // verus!
