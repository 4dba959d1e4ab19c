//! Objectives as they are configured.

use vstd::prelude::*;
use crate::double;
use crate::double::{Arithmetic, Double, Op};
use crate::graph;
use crate::graph::Graph;
use crate::objectives::banded_gingles_partial::{
    BandedGinglesPartial, BandedGinglesPartialState,
};
use crate::objectives::by_district_abs_deviation::{
    AbsDevTotal, ByDistrictAbsDeviation, ByDistrictAbsDeviationState,
};
use crate::objectives::counts;
use crate::objectives::election_wins::{ElectionWins, ElectionWinsState};
use crate::objectives::gingles_partial::{GinglesPartial, GinglesPartialState};
use crate::objectives::incremental::IncrementalObjective;
use crate::objectives::{banded_gingles_partial, below, election_wins, gingles_partial, matching};
use crate::objectives::polsby_popper::{PolsbyPopper, PolsbyPopperState};
use crate::partition::{Partition, Plan};
use crate::recom::proposal::{RecomProposal, Redraw};
use crate::vectors;

verus! {

/// An objective.
pub enum ObjectiveConfig<F> {
    ByDistrictAbsDeviation(ByDistrictAbsDeviation<F>),
    GinglesPartial(GinglesPartial<F>),
    BandedGinglesPartial(BandedGinglesPartial<F>),
    ElectionWins(ElectionWins<F>),
    PolsbyPopper(PolsbyPopper<F>),
}

/// The state of an objective.
pub enum ObjectiveState {
    ByDistrictAbsDeviation(ByDistrictAbsDeviationState),
    GinglesPartial(GinglesPartialState),
    BandedGinglesPartial(BandedGinglesPartialState),
    ElectionWins(ElectionWinsState),
    PolsbyPopper(PolsbyPopperState),
}

impl<F: Fn(Op, Double, Double) -> Double> IncrementalObjective for ObjectiveConfig<F> {
    type State = ObjectiveState;

    open spec fn measures(&self, graph: &Graph, plan: Plan) -> bool {
        match *self {
            ObjectiveConfig::ByDistrictAbsDeviation(o) => o.measures(graph, plan),
            ObjectiveConfig::GinglesPartial(o) => o.measures(graph, plan),
            ObjectiveConfig::BandedGinglesPartial(o) => o.measures(graph, plan),
            ObjectiveConfig::ElectionWins(o) => o.measures(graph, plan),
            ObjectiveConfig::PolsbyPopper(o) => o.measures(graph, plan),
        }
    }

    open spec fn prepared(&self, graph: &Graph) -> bool {
        match *self {
            ObjectiveConfig::ByDistrictAbsDeviation(o) => o.prepared(graph),
            ObjectiveConfig::GinglesPartial(o) => o.prepared(graph),
            ObjectiveConfig::BandedGinglesPartial(o) => o.prepared(graph),
            ObjectiveConfig::ElectionWins(o) => o.prepared(graph),
            ObjectiveConfig::PolsbyPopper(o) => o.prepared(graph),
        }
    }

    open spec fn tracks(&self, graph: &Graph, plan: Plan, state: ObjectiveState) -> bool {
        match (*self, state) {
            (
                ObjectiveConfig::ByDistrictAbsDeviation(o),
                ObjectiveState::ByDistrictAbsDeviation(s),
            ) => o.tracks(graph, plan, s),
            (ObjectiveConfig::GinglesPartial(o), ObjectiveState::GinglesPartial(s)) => o.tracks(
                graph,
                plan,
                s,
            ),
            (ObjectiveConfig::BandedGinglesPartial(o), ObjectiveState::BandedGinglesPartial(s)) =>
                o.tracks(graph, plan, s),
            (ObjectiveConfig::ElectionWins(o), ObjectiveState::ElectionWins(s)) => o.tracks(
                graph,
                plan,
                s,
            ),
            (ObjectiveConfig::PolsbyPopper(o), ObjectiveState::PolsbyPopper(s)) => o.tracks(
                graph,
                plan,
                s,
            ),
            _ => false,
        }
    }

    open spec fn fresh(&self, graph: &Graph, plan: Plan, state: ObjectiveState) -> bool {
        match (*self, state) {
            (ObjectiveConfig::ByDistrictAbsDeviation(o), ObjectiveState::ByDistrictAbsDeviation(s)) => o.fresh(
                graph,
                plan,
                s,
            ),
            (ObjectiveConfig::GinglesPartial(o), ObjectiveState::GinglesPartial(s)) => o.fresh(
                graph,
                plan,
                s,
            ),
            (ObjectiveConfig::BandedGinglesPartial(o), ObjectiveState::BandedGinglesPartial(s)) => o.fresh(
                graph,
                plan,
                s,
            ),
            (ObjectiveConfig::ElectionWins(o), ObjectiveState::ElectionWins(s)) => o.fresh(
                graph,
                plan,
                s,
            ),
            (ObjectiveConfig::PolsbyPopper(o), ObjectiveState::PolsbyPopper(s)) => o.fresh(
                graph,
                plan,
                s,
            ),
            _ => false,
        }
    }

    open spec fn rates(&self, graph: &Graph, plan: Plan, score: Double) -> bool {
        self.scores(graph, plan, score)
    }

    open spec fn suits(&self, state: ObjectiveState) -> bool {
        match (*self, state) {
            (
                ObjectiveConfig::ByDistrictAbsDeviation(o),
                ObjectiveState::ByDistrictAbsDeviation(s),
            ) => o.suits(s),
            (ObjectiveConfig::GinglesPartial(o), ObjectiveState::GinglesPartial(s)) => o.suits(s),
            (ObjectiveConfig::BandedGinglesPartial(o), ObjectiveState::BandedGinglesPartial(s)) =>
                o.suits(s),
            (ObjectiveConfig::ElectionWins(o), ObjectiveState::ElectionWins(s)) => o.suits(s),
            (ObjectiveConfig::PolsbyPopper(o), ObjectiveState::PolsbyPopper(s)) => o.suits(s),
            _ => false,
        }
    }

    open spec fn accepts(&self, graph: &Graph, state: ObjectiveState, p: Redraw) -> bool {
        match (*self, state) {
            (
                ObjectiveConfig::ByDistrictAbsDeviation(o),
                ObjectiveState::ByDistrictAbsDeviation(s),
            ) => o.accepts(graph, s, p),
            (ObjectiveConfig::GinglesPartial(o), ObjectiveState::GinglesPartial(s)) => o.accepts(
                graph,
                s,
                p,
            ),
            (ObjectiveConfig::BandedGinglesPartial(o), ObjectiveState::BandedGinglesPartial(s)) =>
                o.accepts(graph, s, p),
            (ObjectiveConfig::ElectionWins(o), ObjectiveState::ElectionWins(s)) => o.accepts(
                graph,
                s,
                p,
            ),
            (ObjectiveConfig::PolsbyPopper(o), ObjectiveState::PolsbyPopper(s)) => o.accepts(
                graph,
                s,
                p,
            ),
            _ => false,
        }
    }

    open spec fn applied(
        &self,
        graph: &Graph,
        before: ObjectiveState,
        p: Redraw,
        after: ObjectiveState,
    ) -> bool {
        match (*self, before, after) {
            (
                ObjectiveConfig::ByDistrictAbsDeviation(o),
                ObjectiveState::ByDistrictAbsDeviation(s),
                ObjectiveState::ByDistrictAbsDeviation(t),
            ) => o.applied(graph, s, p, t),
            (
                ObjectiveConfig::GinglesPartial(o),
                ObjectiveState::GinglesPartial(s),
                ObjectiveState::GinglesPartial(t),
            ) => o.applied(graph, s, p, t),
            (
                ObjectiveConfig::BandedGinglesPartial(o),
                ObjectiveState::BandedGinglesPartial(s),
                ObjectiveState::BandedGinglesPartial(t),
            ) => o.applied(graph, s, p, t),
            (
                ObjectiveConfig::ElectionWins(o),
                ObjectiveState::ElectionWins(s),
                ObjectiveState::ElectionWins(t),
            ) => o.applied(graph, s, p, t),
            (
                ObjectiveConfig::PolsbyPopper(o),
                ObjectiveState::PolsbyPopper(s),
                ObjectiveState::PolsbyPopper(t),
            ) => o.applied(graph, s, p, t),
            _ => false,
        }
    }

    open spec fn state_score(&self, state: ObjectiveState) -> Double {
        match state {
            ObjectiveState::ByDistrictAbsDeviation(s) => s.score,
            ObjectiveState::GinglesPartial(s) => s.score,
            ObjectiveState::BandedGinglesPartial(s) => s.score,
            ObjectiveState::ElectionWins(s) => s.score,
            ObjectiveState::PolsbyPopper(s) => s.score,
        }
    }

    open spec fn state_district_scores(&self, state: ObjectiveState) -> Seq<Double> {
        match (*self, state) {
            (
                ObjectiveConfig::ByDistrictAbsDeviation(o),
                ObjectiveState::ByDistrictAbsDeviation(s),
            ) => o.state_district_scores(s),
            (ObjectiveConfig::GinglesPartial(o), ObjectiveState::GinglesPartial(s)) =>
                o.state_district_scores(s),
            (ObjectiveConfig::BandedGinglesPartial(o), ObjectiveState::BandedGinglesPartial(s)) =>
                o.state_district_scores(s),
            (ObjectiveConfig::ElectionWins(o), ObjectiveState::ElectionWins(s)) =>
                o.state_district_scores(s),
            (ObjectiveConfig::PolsbyPopper(o), ObjectiveState::PolsbyPopper(s)) =>
                o.state_district_scores(s),
            _ => Seq::empty(),
        }
    }

    proof fn fresh_state_rates(&self, graph: &Graph, plan: Plan, state: ObjectiveState) {
        assert(self.fresh(graph, plan, state));
        match (*self, state) {
            (ObjectiveConfig::ByDistrictAbsDeviation(o), ObjectiveState::ByDistrictAbsDeviation(s)) => {
                o.fresh_state_rates(graph, plan, s);
            },
            (ObjectiveConfig::GinglesPartial(o), ObjectiveState::GinglesPartial(s)) => {
                o.fresh_state_rates(graph, plan, s);
            },
            (ObjectiveConfig::BandedGinglesPartial(o), ObjectiveState::BandedGinglesPartial(s)) => {
                o.fresh_state_rates(graph, plan, s);
            },
            (ObjectiveConfig::ElectionWins(o), ObjectiveState::ElectionWins(s)) => {
                o.fresh_state_rates(graph, plan, s);
            },
            (ObjectiveConfig::PolsbyPopper(o), ObjectiveState::PolsbyPopper(s)) => {
                o.fresh_state_rates(graph, plan, s);
            },
            _ => {},
        }
        assert(self.tracks(graph, plan, state));
        assert(self.suits(state));
        assert(self.rates(graph, plan, self.state_score(state)));
    }

    proof fn applied_state_tracks(
        &self,
        graph: &Graph,
        plan: Plan,
        before: ObjectiveState,
        p: Redraw,
        after: ObjectiveState,
    ) {
        match (*self, before, after) {
            (
                ObjectiveConfig::ByDistrictAbsDeviation(o),
                ObjectiveState::ByDistrictAbsDeviation(s),
                ObjectiveState::ByDistrictAbsDeviation(t),
            ) => {
                o.applied_state_tracks(graph, plan, s, p, t);
            },
            (
                ObjectiveConfig::GinglesPartial(o),
                ObjectiveState::GinglesPartial(s),
                ObjectiveState::GinglesPartial(t),
            ) => {
                o.applied_state_tracks(graph, plan, s, p, t);
            },
            (
                ObjectiveConfig::BandedGinglesPartial(o),
                ObjectiveState::BandedGinglesPartial(s),
                ObjectiveState::BandedGinglesPartial(t),
            ) => {
                o.applied_state_tracks(graph, plan, s, p, t);
            },
            (
                ObjectiveConfig::ElectionWins(o),
                ObjectiveState::ElectionWins(s),
                ObjectiveState::ElectionWins(t),
            ) => {
                o.applied_state_tracks(graph, plan, s, p, t);
            },
            (
                ObjectiveConfig::PolsbyPopper(o),
                ObjectiveState::PolsbyPopper(s),
                ObjectiveState::PolsbyPopper(t),
            ) => {
                o.applied_state_tracks(graph, plan, s, p, t);
            },
            _ => {},
        }
    }

    proof fn tracked_state_accepts(
        &self,
        graph: &Graph,
        plan: Plan,
        state: ObjectiveState,
        p: Redraw,
    ) {
        match (*self, state) {
            (
                ObjectiveConfig::ByDistrictAbsDeviation(o),
                ObjectiveState::ByDistrictAbsDeviation(s),
            ) => {
                o.tracked_state_accepts(graph, plan, s, p);
            },
            (ObjectiveConfig::GinglesPartial(o), ObjectiveState::GinglesPartial(s)) => {
                o.tracked_state_accepts(graph, plan, s, p);
            },
            (
                ObjectiveConfig::BandedGinglesPartial(o),
                ObjectiveState::BandedGinglesPartial(s),
            ) => {
                o.tracked_state_accepts(graph, plan, s, p);
            },
            (ObjectiveConfig::ElectionWins(o), ObjectiveState::ElectionWins(s)) => {
                o.tracked_state_accepts(graph, plan, s, p);
            },
            (ObjectiveConfig::PolsbyPopper(o), ObjectiveState::PolsbyPopper(s)) => {
                o.tracked_state_accepts(graph, plan, s, p);
            },
            _ => {},
        }
    }

    proof fn redrawn_is_measured(&self, graph: &Graph, plan: Plan, p: Redraw) {
        match *self {
            ObjectiveConfig::ByDistrictAbsDeviation(o) => {
                o.redrawn_is_measured(graph, plan, p);
            },
            ObjectiveConfig::GinglesPartial(o) => {
                o.redrawn_is_measured(graph, plan, p);
            },
            ObjectiveConfig::BandedGinglesPartial(o) => {
                o.redrawn_is_measured(graph, plan, p);
            },
            ObjectiveConfig::ElectionWins(o) => {
                o.redrawn_is_measured(graph, plan, p);
            },
            ObjectiveConfig::PolsbyPopper(o) => {
                o.redrawn_is_measured(graph, plan, p);
            },
        }
    }

    fn init(&self, graph: &Graph, partition: &Partition) -> (r: ObjectiveState) {
        let r: ObjectiveState = match self {
            ObjectiveConfig::ByDistrictAbsDeviation(o) => ObjectiveState::ByDistrictAbsDeviation(
                o.init(graph, partition),
            ),
            ObjectiveConfig::GinglesPartial(o) => ObjectiveState::GinglesPartial(
                o.init(graph, partition),
            ),
            ObjectiveConfig::BandedGinglesPartial(o) => ObjectiveState::BandedGinglesPartial(
                o.init(graph, partition),
            ),
            ObjectiveConfig::ElectionWins(o) => ObjectiveState::ElectionWins(
                o.init(graph, partition),
            ),
            ObjectiveConfig::PolsbyPopper(o) => ObjectiveState::PolsbyPopper(
                o.init(graph, partition),
            ),
        };
        proof {
            assert(self.fresh(graph, partition@, r));
            self.fresh_state_rates(graph, partition@, r);
        }
        r
    }

    fn score_state(&self, state: &ObjectiveState) -> (r: Double) {
        match state {
            ObjectiveState::ByDistrictAbsDeviation(s) => s.score,
            ObjectiveState::GinglesPartial(s) => s.score,
            ObjectiveState::BandedGinglesPartial(s) => s.score,
            ObjectiveState::ElectionWins(s) => s.score,
            ObjectiveState::PolsbyPopper(s) => s.score,
        }
    }

    fn score_proposal(
        &self,
        graph: &Graph,
        current: &ObjectiveState,
        proposal: &RecomProposal,
    ) -> (r: Double) {
        match (self, current) {
            (
                ObjectiveConfig::ByDistrictAbsDeviation(o),
                ObjectiveState::ByDistrictAbsDeviation(s),
            ) => {
                let r: Double = o.score_proposal(graph, s, proposal);
                proof {
                    let next = choose|next: ByDistrictAbsDeviationState| #[trigger]
                        o.applied(graph, *s, proposal@, next) && r == o.state_score(next);
                    assert(self.applied(
                        graph,
                        *current,
                        proposal@,
                        ObjectiveState::ByDistrictAbsDeviation(next),
                    ));
                }
                r
            },
            (ObjectiveConfig::GinglesPartial(o), ObjectiveState::GinglesPartial(s)) => {
                let r: Double = o.score_proposal(graph, s, proposal);
                proof {
                    let next = choose|next: GinglesPartialState| #[trigger]
                        o.applied(graph, *s, proposal@, next) && r == o.state_score(next);
                    assert(self.applied(
                        graph,
                        *current,
                        proposal@,
                        ObjectiveState::GinglesPartial(next),
                    ));
                }
                r
            },
            (
                ObjectiveConfig::BandedGinglesPartial(o),
                ObjectiveState::BandedGinglesPartial(s),
            ) => {
                let r: Double = o.score_proposal(graph, s, proposal);
                proof {
                    let next = choose|next: BandedGinglesPartialState| #[trigger]
                        o.applied(graph, *s, proposal@, next) && r == o.state_score(next);
                    assert(self.applied(
                        graph,
                        *current,
                        proposal@,
                        ObjectiveState::BandedGinglesPartial(next),
                    ));
                }
                r
            },
            (ObjectiveConfig::ElectionWins(o), ObjectiveState::ElectionWins(s)) => {
                let r: Double = o.score_proposal(graph, s, proposal);
                proof {
                    let next = choose|next: ElectionWinsState| #[trigger]
                        o.applied(graph, *s, proposal@, next) && r == o.state_score(next);
                    assert(self.applied(
                        graph,
                        *current,
                        proposal@,
                        ObjectiveState::ElectionWins(next),
                    ));
                }
                r
            },
            (ObjectiveConfig::PolsbyPopper(o), ObjectiveState::PolsbyPopper(s)) => {
                let r: Double = o.score_proposal(graph, s, proposal);
                proof {
                    let next = choose|next: PolsbyPopperState| #[trigger]
                        o.applied(graph, *s, proposal@, next) && r == o.state_score(next);
                    assert(self.applied(
                        graph,
                        *current,
                        proposal@,
                        ObjectiveState::PolsbyPopper(next),
                    ));
                }
                r
            },
            _ => double::zero(),
        }
    }

    fn apply_proposal(
        &self,
        graph: &Graph,
        state: &mut ObjectiveState,
        proposal: &RecomProposal,
    ) {
        match self {
            ObjectiveConfig::ByDistrictAbsDeviation(o) => {
                if let ObjectiveState::ByDistrictAbsDeviation(s) = state {
                    o.apply_proposal(graph, s, proposal);
                }
            },
            ObjectiveConfig::GinglesPartial(o) => {
                if let ObjectiveState::GinglesPartial(s) = state {
                    o.apply_proposal(graph, s, proposal);
                }
            },
            ObjectiveConfig::BandedGinglesPartial(o) => {
                if let ObjectiveState::BandedGinglesPartial(s) = state {
                    o.apply_proposal(graph, s, proposal);
                }
            },
            ObjectiveConfig::ElectionWins(o) => {
                if let ObjectiveState::ElectionWins(s) = state {
                    o.apply_proposal(graph, s, proposal);
                }
            },
            ObjectiveConfig::PolsbyPopper(o) => {
                if let ObjectiveState::PolsbyPopper(s) = state {
                    o.apply_proposal(graph, s, proposal);
                }
            },
        }
    }

    fn district_scores(&self, state: &ObjectiveState) -> (r: Vec<Double>) {
        match (self, state) {
            (
                ObjectiveConfig::ByDistrictAbsDeviation(o),
                ObjectiveState::ByDistrictAbsDeviation(s),
            ) => o.district_scores(s),
            (ObjectiveConfig::GinglesPartial(o), ObjectiveState::GinglesPartial(s)) =>
                o.district_scores(s),
            (ObjectiveConfig::BandedGinglesPartial(o), ObjectiveState::BandedGinglesPartial(s)) =>
                o.district_scores(s),
            (ObjectiveConfig::ElectionWins(o), ObjectiveState::ElectionWins(s)) =>
                o.district_scores(s),
            (ObjectiveConfig::PolsbyPopper(o), ObjectiveState::PolsbyPopper(s)) =>
                o.district_scores(s),
            _ => Vec::new(),
        }
    }
}

/// Whether a graph differs from another only in the columns that were read.
pub open spec fn same_but_read(a: &Graph, b: &Graph) -> bool {
    &&& a.edges == b.edges
    &&& a.pops == b.pops
    &&& a.neighbors == b.neighbors
    &&& a.edges_start == b.edges_start
    &&& a.total_pop == b.total_pop
    &&& a.attr == b.attr
    &&& a.edge_attr == b.edge_attr
}

/// Reads columns of integers. Fails at the first one that is missing or holds
/// something else.
fn cache_int_cols(graph: &mut Graph, names: &Vec<String>) -> (r: Result<(), String>)
    requires
        old(graph).sound(),
    ensures
        final(graph).sound(),
        old(graph).valid() ==> final(graph).valid(),
        same_but_read(final(graph), old(graph)),
        final(graph).float_attr == old(graph).float_attr,
        r is Ok <==> forall|i: int|
            0 <= i < names.len() ==> graph::integer_column(old(graph).attr@, (#[trigger] names[i])@),
        r is Ok ==> forall|i: int|
            0 <= i < names.len() ==> final(graph).int_attr@.contains_key((#[trigger] names[i])@)
                && final(graph).int_attr@[names[i]@] == graph::column_integers(
                old(graph).attr@[names[i]@],
            ),
{
    let mut i: usize = 0;
    while i < names.len()
        invariant
            i <= names.len(),
            graph.sound(),
            old(graph).valid() ==> graph.valid(),
            same_but_read(graph, old(graph)),
            graph.float_attr == old(graph).float_attr,
            forall|j: int|
                0 <= j < i ==> graph::integer_column(
                    old(graph).attr@,
                    (#[trigger] names[j])@,
                ) && graph.int_attr@.contains_key(names[j]@) && graph.int_attr@[names[j]@]
                    == graph::column_integers(old(graph).attr@[names[j]@]),
        decreases names.len() - i,
    {
        match graph.cache_int_col(names[i].as_str()) {
            Ok(()) => {},
            Err(e) => {
                assert(!graph::integer_column(old(graph).attr@, names[i as int]@));
                return Err(e);
            },
        }
        i += 1;
    }
    Ok(())
}

impl<F: Fn(Op, Double, Double) -> Double> ObjectiveConfig<F> {
    /// Whether the arithmetic is exact on the sums of fractions that are kept
    /// about a plan: the parts above a band, and the perimeters. Rounded sums
    /// come out otherwise in another order.
    pub open spec fn exact_at(
        &self,
        scale: spec_fn(Double) -> Option<int>,
        bound: int,
        graph: &Graph,
        plan: Plan,
    ) -> bool {
        match *self {
            ObjectiveConfig::BandedGinglesPartial(o) => o.exact_at(scale, bound, graph, plan),
            ObjectiveConfig::PolsbyPopper(o) => o.exact_at(scale, bound, graph, plan),
            _ => true,
        }
    }

    /// Whether equal shares of a plan are equal bit by bit, so that no two are
    /// zeros of different signs.
    pub open spec fn zeros_agree(&self, graph: &Graph, plan: Plan) -> bool {
        match *self {
            ObjectiveConfig::GinglesPartial(o) => below::zeros_agree(o.shares(graph, plan)),
            ObjectiveConfig::BandedGinglesPartial(o) => below::zeros_agree(o.shares(graph, plan)),
            _ => true,
        }
    }

    /// Whether a state is that of a plan, with sums as from scratch.
    pub open spec fn sums_up(&self, graph: &Graph, plan: Plan, state: ObjectiveState) -> bool {
        &&& self.tracks(graph, plan, state)
        &&& match (*self, state) {
            (ObjectiveConfig::BandedGinglesPartial(o), ObjectiveState::BandedGinglesPartial(s)) =>
                o.sums_up(graph, plan, s),
            (ObjectiveConfig::PolsbyPopper(o), ObjectiveState::PolsbyPopper(s)) => o.fresh(
                graph,
                plan,
                s,
            ),
            _ => true,
        }
    }

    /// A state that was built from scratch has sums as from scratch.
    pub proof fn fresh_state_sums_up(&self, graph: &Graph, plan: Plan, state: ObjectiveState)
        requires
            self.fresh(graph, plan, state),
        ensures
            self.sums_up(graph, plan, state),
    {
        self.fresh_state_rates(graph, plan, state);
    }

    /// A state with sums as from scratch represents the score of its plan from
    /// scratch.
    pub proof fn summed_state_rates(&self, graph: &Graph, plan: Plan, state: ObjectiveState)
        requires
            self.sums_up(graph, plan, state),
            self.zeros_agree(graph, plan),
        ensures
            self.scores(graph, plan, self.state_score(state)),
    {
        match (*self, state) {
            (
                ObjectiveConfig::ByDistrictAbsDeviation(o),
                ObjectiveState::ByDistrictAbsDeviation(s),
            ) => {
                assert(o.fresh(graph, plan, s));
                o.fresh_state_rates(graph, plan, s);
                assert(o.rates(graph, plan, s.score));
            },
            (ObjectiveConfig::GinglesPartial(o), ObjectiveState::GinglesPartial(s)) => {
                o.tracked_state_rates(graph, plan, s);
                assert(o.rates(graph, plan, s.score));
            },
            (ObjectiveConfig::BandedGinglesPartial(o), ObjectiveState::BandedGinglesPartial(s)) => {
                o.summed_state_rates(graph, plan, s);
                assert(o.rates(graph, plan, s.score));
            },
            (ObjectiveConfig::ElectionWins(o), ObjectiveState::ElectionWins(s)) => {
                assert(o.fresh(graph, plan, s));
                o.fresh_state_rates(graph, plan, s);
                assert(o.rates(graph, plan, s.score));
            },
            (ObjectiveConfig::PolsbyPopper(o), ObjectiveState::PolsbyPopper(s)) => {
                o.fresh_state_rates(graph, plan, s);
                assert(o.rates(graph, plan, s.score));
            },
            _ => {},
        }
    }

    /// A proposal takes a state with sums as from scratch to one for the redrawn
    /// plan, which represents the score of that plan from scratch. So does a
    /// list of proposals, one after another.
    pub proof fn applied_state_rates(
        &self,
        scale: spec_fn(Double) -> Option<int>,
        bound: int,
        graph: &Graph,
        plan: Plan,
        before: ObjectiveState,
        p: Redraw,
        after: ObjectiveState,
    )
        requires
            self.exact_at(scale, bound, graph, plan),
            self.exact_at(scale, bound, graph, plan.redrawn(p)),
            plan.valid(),
            plan.admits(p),
            plan.assignments.len() == graph.order(),
            graph.sound(),
            self.prepared(graph),
            self.measures(graph, plan),
            self.sums_up(graph, plan, before),
            self.applied(graph, before, p, after),
        ensures
            self.sums_up(graph, plan.redrawn(p), after),
            self.zeros_agree(graph, plan.redrawn(p)) ==> self.scores(
                graph,
                plan.redrawn(p),
                self.state_score(after),
            ),
    {
        self.suits_where_it_tracks(graph, plan, before);
        self.tracked_state_accepts(graph, plan, before, p);
        self.applied_state_tracks(graph, plan, before, p, after);
        match (*self, before, after) {
            (
                ObjectiveConfig::BandedGinglesPartial(o),
                ObjectiveState::BandedGinglesPartial(s),
                ObjectiveState::BandedGinglesPartial(t),
            ) => {
                o.exact_sums_stay(scale, bound, graph, plan, s, p, t);
            },
            (
                ObjectiveConfig::PolsbyPopper(o),
                ObjectiveState::PolsbyPopper(s),
                ObjectiveState::PolsbyPopper(t),
            ) => {
                o.exact_state_stays_fresh(scale, bound, graph, plan, s, p, t);
            },
            _ => {},
        }
        if self.zeros_agree(graph, plan.redrawn(p)) {
            self.summed_state_rates(graph, plan.redrawn(p), after);
        }
    }

    proof fn suits_where_it_tracks(&self, graph: &Graph, plan: Plan, state: ObjectiveState)
        requires
            self.tracks(graph, plan, state),
        ensures
            self.suits(state),
    {
    }

    /// One number is the score of a plan: scoring it from scratch, building its
    /// state and scoring the state come to the same number.
    pub proof fn score_is_unique(&self, graph: &Graph, plan: Plan, x: Double, y: Double)
        requires
            self.scores(graph, plan, x),
            self.scores(graph, plan, y),
        ensures
            x == y,
    {
        match *self {
            ObjectiveConfig::ByDistrictAbsDeviation(o) => {
                matching::total_distance_is_unique(
                    o.arithmetic,
                    o.shares(graph, plan),
                    o.target_values@,
                    x,
                    y,
                );
            },
            ObjectiveConfig::GinglesPartial(o) => {
                gingles_partial::score_is_unique(
                    o.arithmetic,
                    o.threshold,
                    o.shares(graph, plan),
                    x,
                    y,
                );
            },
            ObjectiveConfig::BandedGinglesPartial(o) => {
                banded_gingles_partial::score_is_unique(
                    o.arithmetic,
                    o.lower,
                    o.upper,
                    o.shares(graph, plan),
                    x,
                    y,
                );
            },
            ObjectiveConfig::ElectionWins(o) => {
                election_wins::score_is_unique(
                    o.arithmetic,
                    o.aggregation,
                    o.target_votes(graph, plan),
                    o.other_votes(graph, plan),
                    x,
                    y,
                );
            },
            ObjectiveConfig::PolsbyPopper(_) => {},
        }
    }

    /// Whether a number is the score of a plan.
    pub open spec fn scores(&self, graph: &Graph, plan: Plan, score: Double) -> bool {
        match *self {
            ObjectiveConfig::ByDistrictAbsDeviation(o) => o.rates(graph, plan, score),
            ObjectiveConfig::GinglesPartial(o) => o.rates(graph, plan, score),
            ObjectiveConfig::BandedGinglesPartial(o) => o.rates(graph, plan, score),
            ObjectiveConfig::ElectionWins(o) => o.rates(graph, plan, score),
            ObjectiveConfig::PolsbyPopper(o) => o.rates(graph, plan, score),
        }
    }

    /// Scores a plan from scratch.
    pub fn score(&self, graph: &Graph, partition: &Partition) -> (r: Double)
        requires
            graph.sound(),
            partition@.valid(),
            partition@.assignments.len() == graph.order(),
            self.measures(graph, partition@),
        ensures
            self.scores(graph, partition@, r),
    {
        match self {
            ObjectiveConfig::ByDistrictAbsDeviation(o) => o.score(graph, partition),
            ObjectiveConfig::GinglesPartial(o) => o.score(graph, partition),
            ObjectiveConfig::BandedGinglesPartial(o) => o.score(graph, partition),
            ObjectiveConfig::ElectionWins(o) => o.score(graph, partition),
            ObjectiveConfig::PolsbyPopper(o) => o.score(graph, partition),
        }
    }

    /// The columns of integers that the objective reads, in order.
    pub open spec fn integer_columns(&self) -> Seq<Seq<char>> {
        match *self {
            ObjectiveConfig::ByDistrictAbsDeviation(o) => match o.total {
                AbsDevTotal::Column(col) => seq![o.pov_counts_col@, col@],
                AbsDevTotal::Constant(_) => seq![o.pov_counts_col@],
            },
            ObjectiveConfig::GinglesPartial(o) => seq![o.min_pop_col@, o.total_pop_col@],
            ObjectiveConfig::BandedGinglesPartial(o) => seq![o.min_pop_col@, o.total_pop_col@],
            ObjectiveConfig::ElectionWins(o) => vote_columns(
                o.elections@,
                o.elections@.len() as int,
            ),
            ObjectiveConfig::PolsbyPopper(_) => Seq::empty(),
        }
    }

    fn integer_column_names(&self) -> (r: Vec<String>)
        ensures
            vectors::texts(r@) == self.integer_columns(),
    {
        let mut names: Vec<String> = Vec::new();
        match self {
            ObjectiveConfig::ByDistrictAbsDeviation(o) => {
                names.push(o.pov_counts_col.clone());
                if let AbsDevTotal::Column(col) = &o.total {
                    names.push(col.clone());
                }
            },
            ObjectiveConfig::GinglesPartial(o) => {
                names.push(o.min_pop_col.clone());
                names.push(o.total_pop_col.clone());
            },
            ObjectiveConfig::BandedGinglesPartial(o) => {
                names.push(o.min_pop_col.clone());
                names.push(o.total_pop_col.clone());
            },
            ObjectiveConfig::ElectionWins(o) => {
                let mut e: usize = 0;
                assert(vectors::texts(names@) =~= Seq::<Seq<char>>::empty());
                while e < o.elections.len()
                    invariant
                        e <= o.elections.len(),
                        vectors::texts(names@) == vote_columns(o.elections@, e as int),
                    decreases o.elections.len() - e,
                {
                    let ghost before = vectors::texts(names@);
                    names.push(o.elections[e].0.clone());
                    names.push(o.elections[e].1.clone());
                    e += 1;
                    assert(vectors::texts(names@) =~= before.push(o.elections@[e - 1].0@).push(
                        o.elections@[e - 1].1@,
                    ));
                }
            },
            ObjectiveConfig::PolsbyPopper(_) => {},
        }
        assert(vectors::texts(names@) =~= self.integer_columns());
        names
    }

    /// Whether the columns that the objective reads from a graph fit it: each
    /// has an entry for each node or each edge.
    pub open spec fn fits(&self, graph: &Graph) -> bool {
        match *self {
            ObjectiveConfig::PolsbyPopper(o) => {
                &&& o.arithmetic.valid()
                &&& graph.attr@[o.area_col@].len() == graph.order()
                &&& graph.attr@[o.perim_col@].len() == graph.order()
                &&& graph.edge_attr@.contains_key(o.shared_perim_col@)
                &&& graph.edge_attr@[o.shared_perim_col@].len() == graph.edges@.len()
            },
            ObjectiveConfig::ElectionWins(o) => {
                &&& o.arithmetic.valid()
                &&& o.elections.len() <= i64::MAX
                &&& forall|i: int|
                    0 <= i < self.integer_columns().len() ==> graph.attr@[#[trigger] self.integer_columns()[i]].len()
                        == graph.order()
            },
            ObjectiveConfig::ByDistrictAbsDeviation(o) => {
                &&& o.arithmetic.valid()
                &&& forall|i: int|
                    0 <= i < self.integer_columns().len() ==> graph.attr@[#[trigger] self.integer_columns()[i]].len()
                        == graph.order()
            },
            ObjectiveConfig::GinglesPartial(o) => {
                &&& o.arithmetic.valid()
                &&& forall|i: int|
                    0 <= i < self.integer_columns().len() ==> graph.attr@[#[trigger] self.integer_columns()[i]].len()
                        == graph.order()
            },
            ObjectiveConfig::BandedGinglesPartial(o) => {
                &&& o.arithmetic.valid()
                &&& forall|i: int|
                    0 <= i < self.integer_columns().len() ==> graph.attr@[#[trigger] self.integer_columns()[i]].len()
                        == graph.order()
            },
        }
    }

    /// Whether the columns that the objective reads can be read.
    pub open spec fn can_read(&self, graph: &Graph) -> bool {
        &&& forall|i: int|
            0 <= i < self.integer_columns().len() ==> graph::integer_column(
                graph.attr@,
                #[trigger] self.integer_columns()[i],
            )
        &&& *self matches ObjectiveConfig::PolsbyPopper(o) ==> graph.attr@.contains_key(o.area_col@)
            && graph.attr@.contains_key(o.perim_col@)
    }

    /// Reads the columns that the objective is scored by, numbers by the given
    /// reader. Where it succeeds on columns that fit, the objective is prepared.
    pub fn cache_graph_cols<P: Fn(&String) -> Option<Double>>(&self, graph: &mut Graph, read: &P) -> (r:
        Result<(), String>)
        requires
            old(graph).sound(),
            forall|s: &String| #[trigger] call_requires(*read, (s,)),
        ensures
            final(graph).sound(),
            old(graph).valid() ==> final(graph).valid(),
            same_but_read(final(graph), old(graph)),
            r is Ok <==> self.can_read(old(graph)),
            r is Ok && self.fits(old(graph)) ==> self.prepared(final(graph)),
            r is Ok ==> (*self matches ObjectiveConfig::PolsbyPopper(o) ==> graph::reads_as(
                *read,
                old(graph).attr@[o.area_col@],
                final(graph).float_attr@[o.area_col@],
            ) && graph::reads_as(
                *read,
                old(graph).attr@[o.perim_col@],
                final(graph).float_attr@[o.perim_col@],
            )),
    {
        if let ObjectiveConfig::PolsbyPopper(o) = self {
            match graph.cache_float_col_or_zero(o.area_col.as_str(), read) {
                Ok(()) => {},
                Err(e) => {
                    return Err(e);
                },
            }
            return graph.cache_float_col_or_zero(o.perim_col.as_str(), read);
        }
        let names: Vec<String> = self.integer_column_names();
        let ghost columns = self.integer_columns();
        proof {
            assert forall|i: int| 0 <= i < columns.len() implies #[trigger] columns[i]
                == names[i]@ by {
                assert(columns[i] == vectors::texts(names@)[i]);
            }
            assert(columns.len() == names@.len());
        }
        let r: Result<(), String> = cache_int_cols(graph, &names);
        proof {
            if r is Ok {
                assert forall|i: int| 0 <= i < columns.len() implies graph::integer_column(
                    old(graph).attr@,
                    #[trigger] columns[i],
                ) && graph.int_attr@.contains_key(columns[i]) && graph.int_attr@[columns[i]]
                    == graph::column_integers(old(graph).attr@[columns[i]]) by {
                    assert(columns[i] == names[i]@);
                }
                if self.fits(old(graph)) {
                    assert forall|i: int| 0 <= i < columns.len() implies counts::cached(
                        graph,
                        #[trigger] columns[i],
                    ) by {}
                    prepared_by_columns(self, graph);
                }
            } else {
                let i = choose|i: int|
                    0 <= i < names.len() && !graph::integer_column(
                        old(graph).attr@,
                        (#[trigger] names[i])@,
                    );
                assert(!graph::integer_column(old(graph).attr@, columns[i]));
            }
        }
        r
    }
}

proof fn prepared_by_columns<F: Fn(Op, Double, Double) -> Double>(
    objective: &ObjectiveConfig<F>,
    graph: &Graph,
)
    requires
        forall|i: int|
            0 <= i < objective.integer_columns().len() ==> counts::cached(
                graph,
                #[trigger] objective.integer_columns()[i],
            ),
        objective.fits(graph),
        objective !is PolsbyPopper,
    ensures
        objective.prepared(graph),
{
    let columns = objective.integer_columns();
    match *objective {
        ObjectiveConfig::ByDistrictAbsDeviation(o) => {
            assert(counts::cached(graph, columns[0]));
            if let AbsDevTotal::Column(col) = o.total {
                assert(counts::cached(graph, columns[1]));
            }
        },
        ObjectiveConfig::GinglesPartial(o) => {
            assert(counts::cached(graph, columns[0]));
            assert(counts::cached(graph, columns[1]));
        },
        ObjectiveConfig::BandedGinglesPartial(o) => {
            assert(counts::cached(graph, columns[0]));
            assert(counts::cached(graph, columns[1]));
        },
        ObjectiveConfig::ElectionWins(o) => {
            let n = o.elections@.len() as int;
            assert forall|e: int| 0 <= e < n implies counts::cached(
                graph,
                (#[trigger] o.elections[e]).0@,
            ) && counts::cached(graph, o.elections[e].1@) by {
                vote_columns_are_listed(o.elections@, n, e);
                assert(columns[2 * e] == o.elections[e].0@);
                assert(columns[2 * e + 1] == o.elections[e].1@);
            }
        },
        ObjectiveConfig::PolsbyPopper(_) => {},
    }
}

/// The vote columns of the first `k` elections.
pub open spec fn vote_columns(elections: Seq<(String, String)>, k: int) -> Seq<Seq<char>>
    decreases k,
{
    if k <= 0 {
        Seq::empty()
    } else {
        vote_columns(elections, k - 1).push(elections[k - 1].0@).push(elections[k - 1].1@)
    }
}

proof fn vote_columns_are_listed(elections: Seq<(String, String)>, k: int, e: int)
    requires
        0 <= e < k <= elections.len(),
    ensures
        vote_columns(elections, k).len() == 2 * k,
        vote_columns(elections, k)[2 * e] == elections[e].0@,
        vote_columns(elections, k)[2 * e + 1] == elections[e].1@,
    decreases k,
{
    if e < k - 1 {
        vote_columns_are_listed(elections, k - 1, e);
    } else if k > 1 {
        vote_columns_are_listed(elections, k - 1, k - 2);
    } else {
        reveal_with_fuel(vote_columns, 2);
    }
}

} // verus!
