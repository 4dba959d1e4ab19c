//! The total distance of target shares to distinct districts.

use vstd::prelude::*;
use crate::double;
use crate::double::{Arithmetic, Double, Op};
use crate::graph::Graph;
use crate::objectives::incremental::IncrementalObjective;
use crate::objectives::{counts, matching};
use crate::partition::{Partition, Plan};
use crate::recom::proposal::{RecomProposal, Redraw};
use crate::stats::sums;
use crate::{constraints, text, vectors};

verus! {

/// What district counts are divided by.
pub enum AbsDevTotal {
    /// The sum of a column over the district.
    Column(String),
    /// One number for every district.
    Constant(Double),
}

/// Adds up the distances of target shares to distinct districts.
pub struct ByDistrictAbsDeviation<F> {
    /// The targets, ascending.
    pub target_values: Vec<Double>,
    pub pov_counts_col: String,
    pub total: AbsDevTotal,
    pub arithmetic: Arithmetic<F>,
}

/// What is kept about the districts.
#[derive(Debug)]
pub struct ByDistrictAbsDeviationState {
    /// The share of each district.
    pub shares: Vec<Double>,
    pub score: Double,
}

/// What is wrong with a number of targets, if anything.
pub open spec fn target_len_error(len: nat, num_dists: nat) -> Option<Seq<char>> {
    if 1 <= len <= num_dists {
        None
    } else {
        Some(
            "'target_values' must have between 1 and "@ + text::decimal(num_dists)
                + " entries (one per district), got "@ + text::decimal(len),
        )
    }
}

impl<F: Fn(Op, Double, Double) -> Double> ByDistrictAbsDeviation<F> {
    /// The share of the listed nodes.
    pub open spec fn share(&self, graph: &Graph, nodes: Seq<usize>) -> Double {
        let part = counts::total(graph, self.pov_counts_col@, nodes);
        match self.total {
            AbsDevTotal::Column(col) => counts::share_of(
                self.arithmetic,
                part,
                counts::total(graph, col@, nodes),
            ),
            AbsDevTotal::Constant(t) => self.arithmetic.quotient(
                self.arithmetic.integer(part),
                t,
            ),
        }
    }

    /// The share of each district of a plan.
    pub open spec fn shares(&self, graph: &Graph, plan: Plan) -> Seq<Double> {
        Seq::new(plan.dist_nodes.len(), |d: int| self.share(graph, plan.dist_nodes[d]))
    }

    /// Checks that there is a target and at most one for each district.
    pub fn check_target_len(&self, num_dists: u32) -> (r: Result<(), String>)
        ensures
            match r {
                Ok(()) => target_len_error(self.target_values@.len(), num_dists as nat) is None,
                Err(e) => target_len_error(self.target_values@.len(), num_dists as nat) == Some(e@),
            },
    {
        if self.target_values.len() > 0 && self.target_values.len() <= num_dists as usize {
            Ok(())
        } else {
            let mut out: String = "'target_values' must have between 1 and ".to_string();
            text::push_number(&mut out, num_dists as u64);
            out.append(" entries (one per district), got ");
            text::push_number(&mut out, self.target_values.len() as u64);
            Err(out)
        }
    }

    /// Scores a plan from scratch.
    pub fn score(&self, graph: &Graph, partition: &Partition) -> (r: Double)
        requires
            graph.sound(),
            partition@.valid(),
            partition@.assignments.len() == graph.order(),
            self.measures(graph, partition@),
        ensures
            matching::is_total_distance(
                self.arithmetic,
                self.shares(graph, partition@),
                self.target_values@,
                r,
            ),
    {
        self.init(graph, partition).score
    }

    /// The share of the listed nodes.
    fn proposal_share(&self, graph: &Graph, nodes: &Vec<usize>) -> (r: Double)
        requires
            graph.sound(),
            self.prepared(graph),
            sums::nodes_within(nodes@, graph.order()),
        ensures
            r == self.share(graph, nodes@),
    {
        let part: i64 = counts::sum_attr_over(graph, self.pov_counts_col.as_str(), nodes);
        match &self.total {
            AbsDevTotal::Column(col) => {
                let whole: i64 = counts::sum_attr_over(graph, col.as_str(), nodes);
                counts::district_share(&self.arithmetic, part, whole)
            },
            AbsDevTotal::Constant(t) => self.arithmetic.over(self.arithmetic.of_int(part), *t),
        }
    }
}

impl<F: Fn(Op, Double, Double) -> Double> IncrementalObjective for ByDistrictAbsDeviation<F> {
    type State = ByDistrictAbsDeviationState;

    open spec fn measures(&self, graph: &Graph, plan: Plan) -> bool {
        &&& self.arithmetic.valid()
        &&& counts::readable(graph, self.pov_counts_col@)
        &&& self.total matches AbsDevTotal::Column(col) ==> counts::readable(graph, col@)
        &&& 0 < self.target_values.len() <= plan.num_dists
        &&& plan.num_dists < usize::MAX
    }

    open spec fn prepared(&self, graph: &Graph) -> bool {
        &&& self.arithmetic.valid()
        &&& counts::cached(graph, self.pov_counts_col@)
        &&& self.total matches AbsDevTotal::Column(col) ==> counts::cached(graph, col@)
    }

    open spec fn tracks(
        &self,
        graph: &Graph,
        plan: Plan,
        state: ByDistrictAbsDeviationState,
    ) -> bool {
        &&& state.shares@ == self.shares(graph, plan)
        &&& self.suits(state)
    }

    open spec fn fresh(&self, graph: &Graph, plan: Plan, state: ByDistrictAbsDeviationState) -> bool {
        self.tracks(graph, plan, state)
    }

    open spec fn rates(&self, graph: &Graph, plan: Plan, score: Double) -> bool {
        matching::is_total_distance(
            self.arithmetic,
            self.shares(graph, plan),
            self.target_values@,
            score,
        )
    }

    open spec fn suits(&self, state: ByDistrictAbsDeviationState) -> bool {
        &&& self.arithmetic.valid()
        &&& 0 < self.target_values.len() <= state.shares.len() < usize::MAX
        &&& matching::is_total_distance(
            self.arithmetic,
            state.shares@,
            self.target_values@,
            state.score,
        )
    }

    open spec fn accepts(
        &self,
        graph: &Graph,
        state: ByDistrictAbsDeviationState,
        p: Redraw,
    ) -> bool {
        &&& p.a_label < state.shares.len()
        &&& p.b_label < state.shares.len()
        &&& sums::nodes_within(p.a_nodes, graph.order())
        &&& sums::nodes_within(p.b_nodes, graph.order())
    }

    open spec fn applied(
        &self,
        graph: &Graph,
        before: ByDistrictAbsDeviationState,
        p: Redraw,
        after: ByDistrictAbsDeviationState,
    ) -> bool {
        &&& after.shares@ == before.shares@.update(
            p.a_label as int,
            self.share(graph, p.a_nodes),
        ).update(p.b_label as int, self.share(graph, p.b_nodes))
        &&& self.suits(after)
    }

    open spec fn state_score(&self, state: ByDistrictAbsDeviationState) -> Double {
        state.score
    }

    open spec fn state_district_scores(&self, state: ByDistrictAbsDeviationState) -> Seq<Double> {
        Seq::new(
            state.shares@.len(),
            |d: int|
                if state.shares[d].finite() {
                    state.shares[d]
                } else {
                    double::zero()
                },
        )
    }

    proof fn fresh_state_rates(
        &self,
        graph: &Graph,
        plan: Plan,
        state: ByDistrictAbsDeviationState,
    ) {
        assert(self.fresh(graph, plan, state));
        assert(self.rates(graph, plan, self.state_score(state)));
    }

    proof fn applied_state_tracks(
        &self,
        graph: &Graph,
        plan: Plan,
        before: ByDistrictAbsDeviationState,
        p: Redraw,
        after: ByDistrictAbsDeviationState,
    ) {
        assert(after.shares@ =~= self.shares(graph, plan.redrawn(p)));
    }

    proof fn tracked_state_accepts(
        &self,
        graph: &Graph,
        plan: Plan,
        state: ByDistrictAbsDeviationState,
        p: Redraw,
    ) {
        constraints::redrawn_nodes_are_within(plan, p);
        assert(state.shares@.len() == plan.dist_nodes.len());
    }

    proof fn redrawn_is_measured(&self, graph: &Graph, plan: Plan, p: Redraw) {
    }

    fn init(&self, graph: &Graph, partition: &Partition) -> (r: ByDistrictAbsDeviationState) {
        let parts: Vec<i64> = counts::partition_attr_sums(
            graph,
            partition,
            self.pov_counts_col.as_str(),
        );
        let ghost parts_spec = counts::totals(graph, self.pov_counts_col@, partition@);
        assert(counts::ints(parts@).len() == partition@.dist_nodes.len());
        let mut shares: Vec<Double> = Vec::new();
        match &self.total {
            AbsDevTotal::Column(col) => {
                let wholes: Vec<i64> = counts::partition_attr_sums(
                    graph,
                    partition,
                    col.as_str(),
                );
                let ghost wholes_spec = counts::totals(graph, col@, partition@);
                assert(counts::ints(wholes@).len() == partition@.dist_nodes.len());
                let mut d: usize = 0;
                while d < parts.len()
                    invariant
                        d <= parts.len(),
                        self.arithmetic.valid(),
                        self.total == AbsDevTotal::Column(*col),
                        parts_spec == counts::totals(graph, self.pov_counts_col@, partition@),
                        wholes_spec == counts::totals(graph, col@, partition@),
                        counts::ints(parts@) == parts_spec,
                        counts::ints(wholes@) == wholes_spec,
                        parts.len() == partition@.dist_nodes.len(),
                        wholes.len() == parts.len(),
                        shares.len() == d,
                        forall|e: int|
                            0 <= e < d ==> #[trigger] shares[e] == self.share(
                                graph,
                                partition@.dist_nodes[e],
                            ),
                    decreases parts.len() - d,
                {
                    assert(counts::ints(parts@)[d as int] == parts_spec[d as int]);
                    assert(counts::ints(wholes@)[d as int] == wholes_spec[d as int]);
                    shares.push(counts::district_share(&self.arithmetic, parts[d], wholes[d]));
                    d += 1;
                }
            },
            AbsDevTotal::Constant(t) => {
                let mut d: usize = 0;
                while d < parts.len()
                    invariant
                        d <= parts.len(),
                        self.arithmetic.valid(),
                        self.total == AbsDevTotal::Constant(*t),
                        parts_spec == counts::totals(graph, self.pov_counts_col@, partition@),
                        counts::ints(parts@) == parts_spec,
                        parts.len() == partition@.dist_nodes.len(),
                        shares.len() == d,
                        forall|e: int|
                            0 <= e < d ==> #[trigger] shares[e] == self.share(
                                graph,
                                partition@.dist_nodes[e],
                            ),
                    decreases parts.len() - d,
                {
                    assert(counts::ints(parts@)[d as int] == parts_spec[d as int]);
                    shares.push(
                        self.arithmetic.over(self.arithmetic.of_int(parts[d]), *t),
                    );
                    d += 1;
                }
            },
        }
        assert(shares@ =~= self.shares(graph, partition@));
        let score: Double = matching::by_district_abs_dev_score(
            &self.arithmetic,
            &shares,
            &self.target_values,
        );
        let r: ByDistrictAbsDeviationState = ByDistrictAbsDeviationState { shares, score };
        proof {
            self.fresh_state_rates(graph, partition@, r);
        }
        r
    }

    fn score_state(&self, state: &ByDistrictAbsDeviationState) -> (r: Double) {
        state.score
    }

    fn score_proposal(
        &self,
        graph: &Graph,
        current: &ByDistrictAbsDeviationState,
        proposal: &RecomProposal,
    ) -> (r: Double) {
        let mut next: ByDistrictAbsDeviationState = ByDistrictAbsDeviationState {
            shares: vectors::copied(&current.shares),
            score: current.score,
        };
        self.apply_proposal(graph, &mut next, proposal);
        assert(self.applied(graph, *current, proposal@, next));
        next.score
    }

    fn apply_proposal(
        &self,
        graph: &Graph,
        state: &mut ByDistrictAbsDeviationState,
        proposal: &RecomProposal,
    ) {
        let new_a: Double = self.proposal_share(graph, &proposal.a_nodes);
        let new_b: Double = self.proposal_share(graph, &proposal.b_nodes);
        state.shares.set(proposal.a_label, new_a);
        state.shares.set(proposal.b_label, new_b);
        state.score = matching::by_district_abs_dev_score(
            &self.arithmetic,
            &state.shares,
            &self.target_values,
        );
    }

    fn district_scores(&self, state: &ByDistrictAbsDeviationState) -> (r: Vec<Double>) {
        let mut r: Vec<Double> = Vec::new();
        let mut d: usize = 0;
        while d < state.shares.len()
            invariant
                d <= state.shares.len(),
                r.len() == d,
                forall|e: int|
                    0 <= e < d ==> #[trigger] r[e] == self.state_district_scores(*state)[e],
            decreases state.shares.len() - d,
        {
            if state.shares[d].is_finite() {
                r.push(state.shares[d]);
            } else {
                r.push(double::zero());
            }
            d += 1;
        }
        assert(r@ =~= self.state_district_scores(*state));
        r
    }
}

} // verus!
