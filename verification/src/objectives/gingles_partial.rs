//! Opportunity districts, with the next partial district as a tiebreaker.

use vstd::prelude::*;
use crate::double::{Arithmetic, Double, Op};
use crate::graph::Graph;
use crate::objectives::incremental::IncrementalObjective;
use crate::objectives::{below, counts, tally};
use crate::partition::{Partition, Plan};
use crate::recom::proposal::{RecomProposal, Redraw};
use crate::stats::sums;
use crate::{constraints, double, vectors};

verus! {

/// Counts the districts whose minority share reaches a threshold. The highest
/// share below it adds a fraction.
pub struct GinglesPartial<F> {
    pub threshold: Double,
    pub min_pop_col: String,
    pub total_pop_col: String,
    pub arithmetic: Arithmetic<F>,
}

/// What is kept about the districts.
#[derive(Debug)]
pub struct GinglesPartialState {
    pub min_pops: Vec<i64>,
    pub total_pops: Vec<i64>,
    pub opportunity_count: usize,
    pub best_below_dist: Option<usize>,
    pub best_below_share: Double,
    pub score: Double,
}

/// The districts whose share reaches the threshold.
pub open spec fn opportunities(shares: Seq<Double>, threshold: Double) -> Seq<bool> {
    Seq::new(shares.len(), |d: int| threshold.at_most(shares[d]))
}

/// Whether a number is the score of district shares: the number of opportunity
/// districts, and the highest share below the threshold as a part of it.
pub open spec fn is_score<F: Fn(Op, Double, Double) -> Double>(
    numbers: Arithmetic<F>,
    threshold: Double,
    shares: Seq<Double>,
    score: Double,
) -> bool {
    exists|dist: Option<usize>, best: Double| #[trigger]
        below::first_below(shares, threshold, dist, best) && score == score_with(
            numbers,
            threshold,
            tally::marked(opportunities(shares, threshold)),
            best,
        )
}

/// One number is the score of given shares.
pub proof fn score_is_unique<F: Fn(Op, Double, Double) -> Double>(
    numbers: Arithmetic<F>,
    threshold: Double,
    shares: Seq<Double>,
    x: Double,
    y: Double,
)
    requires
        is_score(numbers, threshold, shares, x),
        is_score(numbers, threshold, shares, y),
    ensures
        x == y,
{
    assert forall|d1: Option<usize>, b1: Double, d2: Option<usize>, b2: Double|
        #![trigger below::first_below(shares, threshold, d1, b1), below::first_below(shares, threshold, d2, b2)]
        below::first_below(shares, threshold, d1, b1) && below::first_below(
            shares,
            threshold,
            d2,
            b2,
        ) implies b1 == b2 by {
        below::first_below_is_unique(shares, threshold, d1, b1, d2, b2);
    }
}

/// The score of a number of opportunity districts and a partial one.
pub open spec fn score_with<F: Fn(Op, Double, Double) -> Double>(
    numbers: Arithmetic<F>,
    threshold: Double,
    count: int,
    best: Double,
) -> Double {
    numbers.sum(numbers.integer(count), numbers.quotient(best, threshold))
}

impl<F: Fn(Op, Double, Double) -> Double> GinglesPartial<F> {
    /// The share of each district of a plan.
    pub open spec fn shares(&self, graph: &Graph, plan: Plan) -> Seq<Double> {
        counts::shares_of(
            self.arithmetic,
            counts::totals(graph, self.min_pop_col@, plan),
            counts::totals(graph, self.total_pop_col@, plan),
        )
    }

    /// The share of each district of a state.
    pub open spec fn state_shares(&self, state: GinglesPartialState) -> Seq<Double> {
        counts::shares_of(
            self.arithmetic,
            counts::ints(state.min_pops@),
            counts::ints(state.total_pops@),
        )
    }

    fn score_from(&self, count: usize, best: Double) -> (r: Double)
        requires
            self.arithmetic.valid(),
            count <= i64::MAX,
        ensures
            r == score_with(self.arithmetic, self.threshold, count as int, best),
    {
        self.arithmetic.plus(
            self.arithmetic.of_int(count as i64),
            self.arithmetic.over(best, self.threshold),
        )
    }

    /// Counts the districts whose share reaches the threshold.
    fn count_opportunities(&self, min_pops: &Vec<i64>, total_pops: &Vec<i64>) -> (r: usize)
        requires
            self.arithmetic.valid(),
            min_pops.len() == total_pops.len(),
        ensures
            r == tally::marked(
                opportunities(
                    counts::shares_of(
                        self.arithmetic,
                        counts::ints(min_pops@),
                        counts::ints(total_pops@),
                    ),
                    self.threshold,
                ),
            ),
            r <= min_pops.len(),
    {
        let ghost marks = opportunities(
            counts::shares_of(self.arithmetic, counts::ints(min_pops@), counts::ints(total_pops@)),
            self.threshold,
        );
        let mut count: usize = 0;
        let mut d: usize = 0;
        while d < min_pops.len()
            invariant
                d <= min_pops.len(),
                self.arithmetic.valid(),
                min_pops.len() == total_pops.len(),
                marks == opportunities(
                    counts::shares_of(
                        self.arithmetic,
                        counts::ints(min_pops@),
                        counts::ints(total_pops@),
                    ),
                    self.threshold,
                ),
                count == tally::tally(marks, d as int),
                count <= d,
            decreases min_pops.len() - d,
        {
            let share: Double = counts::district_share(
                &self.arithmetic,
                min_pops[d],
                total_pops[d],
            );
            if share.ge(self.threshold) {
                count += 1;
            }
            d += 1;
        }
        count
    }

    /// Every state of a plan represents the score of the plan, where equal shares
    /// are equal bit by bit.
    pub proof fn tracked_state_rates(&self, graph: &Graph, plan: Plan, state: GinglesPartialState)
        requires
            self.tracks(graph, plan, state),
            below::zeros_agree(self.shares(graph, plan)),
        ensures
            self.rates(graph, plan, self.state_score(state)),
    {
        let shares = self.shares(graph, plan);
        let (dist, best) = below::first_exists(
            shares,
            self.threshold,
            state.best_below_dist,
            state.best_below_share,
        );
        below::best_below_is_the_first(
            shares,
            self.threshold,
            state.best_below_dist,
            state.best_below_share,
            dist,
            best,
        );
        assert(below::first_below(shares, self.threshold, dist, best));
        assert(self.rates(graph, plan, self.state_score(state)));
    }

    /// Scores a plan from scratch.
    pub fn score(&self, graph: &Graph, partition: &Partition) -> (r: Double)
        requires
            graph.sound(),
            partition@.valid(),
            partition@.assignments.len() == graph.order(),
            self.measures(graph, partition@),
        ensures
            is_score(self.arithmetic, self.threshold, self.shares(graph, partition@), r),
    {
        self.init(graph, partition).score
    }

    /// What the redrawn districts' counts lead to.
    fn single_update(
        &self,
        state: &GinglesPartialState,
        a: usize,
        b: usize,
        new_a: (i64, i64),
        new_b: (i64, i64),
    ) -> (r: (usize, Option<usize>, Double))
        requires
            self.suits(*state),
            a < state.min_pops.len(),
            b < state.min_pops.len(),
            a != b,
        ensures
            ({
                let shares = self.state_shares(*state).update(
                    a as int,
                    counts::share_of(self.arithmetic, new_a.0 as int, new_a.1 as int),
                ).update(
                    b as int,
                    counts::share_of(self.arithmetic, new_b.0 as int, new_b.1 as int),
                );
                &&& r.0 == tally::marked(opportunities(shares, self.threshold))
                &&& r.0 <= state.min_pops.len()
                &&& below::best_below(shares, self.threshold, r.1, r.2)
            }),
    {
        let ghost before = self.state_shares(*state);
        let old_a_share: Double = counts::district_share(
            &self.arithmetic,
            state.min_pops[a],
            state.total_pops[a],
        );
        let old_b_share: Double = counts::district_share(
            &self.arithmetic,
            state.min_pops[b],
            state.total_pops[b],
        );
        let new_a_share: Double = counts::district_share(&self.arithmetic, new_a.0, new_a.1);
        let new_b_share: Double = counts::district_share(&self.arithmetic, new_b.0, new_b.1);
        proof {
            let marks = opportunities(before, self.threshold);
            let x = self.threshold.at_most(new_a_share);
            let y = self.threshold.at_most(new_b_share);
            tally::marked_with_two_changed(marks, a as int, x, b as int, y);
            assert(opportunities(
                before.update(a as int, new_a_share).update(b as int, new_b_share),
                self.threshold,
            ) =~= marks.update(a as int, x).update(b as int, y));
        }
        let mut count: usize = state.opportunity_count;
        if old_a_share.ge(self.threshold) {
            count -= 1;
        }
        if old_b_share.ge(self.threshold) {
            count -= 1;
        }
        if new_a_share.ge(self.threshold) {
            count += 1;
        }
        if new_b_share.ge(self.threshold) {
            count += 1;
        }
        let (dist, best): (Option<usize>, Double) = below::update_best_below(
            &self.arithmetic,
            &state.min_pops,
            &state.total_pops,
            self.threshold,
            state.best_below_dist,
            state.best_below_share,
            a,
            b,
            new_a_share,
            new_b_share,
        );
        (count, dist, best)
    }
}

impl<F: Fn(Op, Double, Double) -> Double> IncrementalObjective for GinglesPartial<F> {
    type State = GinglesPartialState;

    open spec fn measures(&self, graph: &Graph, plan: Plan) -> bool {
        &&& self.arithmetic.valid()
        &&& counts::readable(graph, self.min_pop_col@)
        &&& counts::readable(graph, self.total_pop_col@)
    }

    open spec fn prepared(&self, graph: &Graph) -> bool {
        &&& self.arithmetic.valid()
        &&& counts::cached(graph, self.min_pop_col@)
        &&& counts::cached(graph, self.total_pop_col@)
    }

    open spec fn tracks(&self, graph: &Graph, plan: Plan, state: GinglesPartialState) -> bool {
        &&& counts::ints(state.min_pops@) == counts::totals(graph, self.min_pop_col@, plan)
        &&& counts::ints(state.total_pops@) == counts::totals(graph, self.total_pop_col@, plan)
        &&& self.suits(state)
    }

    open spec fn fresh(&self, graph: &Graph, plan: Plan, state: GinglesPartialState) -> bool {
        &&& self.tracks(graph, plan, state)
        &&& below::first_below(
            self.shares(graph, plan),
            self.threshold,
            state.best_below_dist,
            state.best_below_share,
        )
    }

    open spec fn rates(&self, graph: &Graph, plan: Plan, score: Double) -> bool {
        is_score(self.arithmetic, self.threshold, self.shares(graph, plan), score)
    }

    open spec fn suits(&self, state: GinglesPartialState) -> bool {
        &&& self.arithmetic.valid()
        &&& state.min_pops.len() == state.total_pops.len()
        &&& state.min_pops.len() <= u32::MAX
        &&& state.opportunity_count == tally::marked(
            opportunities(self.state_shares(state), self.threshold),
        )
        &&& below::best_below(
            self.state_shares(state),
            self.threshold,
            state.best_below_dist,
            state.best_below_share,
        )
        &&& state.score == score_with(
            self.arithmetic,
            self.threshold,
            state.opportunity_count as int,
            state.best_below_share,
        )
    }

    open spec fn accepts(&self, graph: &Graph, state: GinglesPartialState, p: Redraw) -> bool {
        &&& p.a_label < state.min_pops.len()
        &&& p.b_label < state.min_pops.len()
        &&& p.a_label != p.b_label
        &&& sums::nodes_within(p.a_nodes, graph.order())
        &&& sums::nodes_within(p.b_nodes, graph.order())
    }

    open spec fn applied(
        &self,
        graph: &Graph,
        before: GinglesPartialState,
        p: Redraw,
        after: GinglesPartialState,
    ) -> bool {
        &&& counts::ints(after.min_pops@) == counts::ints(before.min_pops@).update(
            p.a_label as int,
            counts::total(graph, self.min_pop_col@, p.a_nodes),
        ).update(p.b_label as int, counts::total(graph, self.min_pop_col@, p.b_nodes))
        &&& counts::ints(after.total_pops@) == counts::ints(before.total_pops@).update(
            p.a_label as int,
            counts::total(graph, self.total_pop_col@, p.a_nodes),
        ).update(p.b_label as int, counts::total(graph, self.total_pop_col@, p.b_nodes))
        &&& self.suits(after)
    }

    open spec fn state_score(&self, state: GinglesPartialState) -> Double {
        state.score
    }

    open spec fn state_district_scores(&self, state: GinglesPartialState) -> Seq<Double> {
        counts::shares_or_zero(
            self.arithmetic,
            counts::ints(state.min_pops@),
            counts::ints(state.total_pops@),
        )
    }

    proof fn fresh_state_rates(&self, graph: &Graph, plan: Plan, state: GinglesPartialState) {
        assert(below::first_below(
            self.shares(graph, plan),
            self.threshold,
            state.best_below_dist,
            state.best_below_share,
        ));
    }

    proof fn applied_state_tracks(
        &self,
        graph: &Graph,
        plan: Plan,
        before: GinglesPartialState,
        p: Redraw,
        after: GinglesPartialState,
    ) {
        counts::redrawn_totals(graph, self.min_pop_col@, plan, p);
        counts::redrawn_totals(graph, self.total_pop_col@, plan, p);
    }

    proof fn tracked_state_accepts(
        &self,
        graph: &Graph,
        plan: Plan,
        state: GinglesPartialState,
        p: Redraw,
    ) {
        constraints::redrawn_nodes_are_within(plan, p);
        assert(counts::ints(state.min_pops@).len() == plan.dist_nodes.len());
    }

    proof fn redrawn_is_measured(&self, graph: &Graph, plan: Plan, p: Redraw) {
    }

    fn init(&self, graph: &Graph, partition: &Partition) -> (r: GinglesPartialState) {
        let min_pops: Vec<i64> = counts::partition_attr_sums(
            graph,
            partition,
            self.min_pop_col.as_str(),
        );
        let total_pops: Vec<i64> = counts::partition_attr_sums(
            graph,
            partition,
            self.total_pop_col.as_str(),
        );
        assert(counts::ints(min_pops@).len() == partition@.dist_nodes.len());
        assert(counts::ints(total_pops@).len() == partition@.dist_nodes.len());
        let opportunity_count: usize = self.count_opportunities(&min_pops, &total_pops);
        let (best_below_dist, best_below_share): (Option<usize>, Double) = below::find_best_below(
            &self.arithmetic,
            &min_pops,
            &total_pops,
            self.threshold,
        );
        let score: Double = self.score_from(opportunity_count, best_below_share);
        let r: GinglesPartialState = GinglesPartialState {
            min_pops,
            total_pops,
            opportunity_count,
            best_below_dist,
            best_below_share,
            score,
        };
        proof {
            self.fresh_state_rates(graph, partition@, r);
        }
        r
    }

    fn score_state(&self, state: &GinglesPartialState) -> (r: Double) {
        state.score
    }

    fn score_proposal(
        &self,
        graph: &Graph,
        current: &GinglesPartialState,
        proposal: &RecomProposal,
    ) -> (r: Double) {
        let mut next: GinglesPartialState = GinglesPartialState {
            min_pops: vectors::copied(&current.min_pops),
            total_pops: vectors::copied(&current.total_pops),
            opportunity_count: current.opportunity_count,
            best_below_dist: current.best_below_dist,
            best_below_share: current.best_below_share,
            score: current.score,
        };
        self.apply_proposal(graph, &mut next, proposal);
        assert(self.applied(graph, *current, proposal@, next));
        next.score
    }

    fn apply_proposal(
        &self,
        graph: &Graph,
        state: &mut GinglesPartialState,
        proposal: &RecomProposal,
    ) {
        let a: usize = proposal.a_label;
        let b: usize = proposal.b_label;
        let new_a: (i64, i64) = (
            counts::sum_attr_over(graph, self.min_pop_col.as_str(), &proposal.a_nodes),
            counts::sum_attr_over(graph, self.total_pop_col.as_str(), &proposal.a_nodes),
        );
        let new_b: (i64, i64) = (
            counts::sum_attr_over(graph, self.min_pop_col.as_str(), &proposal.b_nodes),
            counts::sum_attr_over(graph, self.total_pop_col.as_str(), &proposal.b_nodes),
        );
        let ghost before = *state;
        let (count, dist, best): (usize, Option<usize>, Double) = self.single_update(
            state,
            a,
            b,
            new_a,
            new_b,
        );
        state.min_pops.set(a, new_a.0);
        state.total_pops.set(a, new_a.1);
        state.min_pops.set(b, new_b.0);
        state.total_pops.set(b, new_b.1);
        state.opportunity_count = count;
        state.best_below_dist = dist;
        state.best_below_share = best;
        state.score = self.score_from(count, best);
        proof {
            assert(counts::ints(state.min_pops@) =~= counts::ints(before.min_pops@).update(
                a as int,
                new_a.0 as int,
            ).update(b as int, new_b.0 as int));
            assert(counts::ints(state.total_pops@) =~= counts::ints(before.total_pops@).update(
                a as int,
                new_a.1 as int,
            ).update(b as int, new_b.1 as int));
            assert(self.state_shares(*state) =~= self.state_shares(before).update(
                a as int,
                counts::share_of(self.arithmetic, new_a.0 as int, new_a.1 as int),
            ).update(
                b as int,
                counts::share_of(self.arithmetic, new_b.0 as int, new_b.1 as int),
            ));
        }
    }

    fn district_scores(&self, state: &GinglesPartialState) -> (r: Vec<Double>) {
        counts::district_shares(&self.arithmetic, &state.min_pops, &state.total_pops)
    }
}

/// A share at the threshold is a whole district: as the partial share it scores
/// like one more opportunity district and no partial one, and that score is the
/// number of districts.
pub proof fn a_share_at_the_threshold_is_a_whole_district<F: Fn(Op, Double, Double) -> Double>(
    numbers: Arithmetic<F>,
    threshold: Double,
    count: int,
)
    requires
        numbers.counts(),
        numbers.orderly(),
        threshold.finite(),
        double::zero().below(threshold),
        0 <= count < double::WHOLE,
    ensures
        score_with(numbers, threshold, count, threshold) == score_with(
            numbers,
            threshold,
            count + 1,
            double::zero(),
        ),
        score_with(numbers, threshold, count, double::zero()) == numbers.integer(count),
{
    numbers.ordered_quotients(threshold, threshold, threshold, threshold);
    numbers.whole_results(count, 1);
    numbers.whole_results(count, 0);
    numbers.whole_results(count + 1, 0);
}

/// A district below the threshold never counts for more than a whole one, and
/// one with a higher share never for less.
pub proof fn a_partial_district_is_no_more_than_a_whole_one<F: Fn(Op, Double, Double) -> Double>(
    numbers: Arithmetic<F>,
    threshold: Double,
    count: int,
    best: Double,
    higher: Double,
)
    requires
        numbers.counts(),
        numbers.orderly(),
        threshold.finite(),
        double::zero().at_most(best),
        best.at_most(higher),
        higher.below(threshold),
        0 <= count < double::WHOLE,
    ensures
        numbers.integer(count).at_most(score_with(numbers, threshold, count, best)),
        score_with(numbers, threshold, count, best).at_most(
            score_with(numbers, threshold, count, higher),
        ),
        score_with(numbers, threshold, count, higher).at_most(numbers.integer(count + 1)),
        numbers.quotient(higher, threshold).below(double::one()),
{
    a_share_at_the_threshold_is_a_whole_district(numbers, threshold, count);
    numbers.ordered_quotients(double::zero(), best, threshold, threshold);
    numbers.ordered_quotients(best, higher, threshold, threshold);
    numbers.ordered_quotients(higher, threshold, threshold, threshold);
    numbers.whole_results(count, count + 1);
    let c = numbers.integer(count);
    let p = numbers.quotient(best, threshold);
    let q = numbers.quotient(higher, threshold);
    numbers.ordered_results(c, double::zero(), p);
    numbers.ordered_results(c, p, q);
    numbers.ordered_results(c, q, double::one());
    numbers.whole_results(count, 0);
    numbers.whole_results(count, 1);
}

/// The districts whose share is at least the threshold.
pub open spec fn at_or_above(shares: Seq<Double>, threshold: Double) -> Set<int> {
    Set::new(|d: int| 0 <= d < shares.len() && threshold.at_most(shares[d]))
}

/// A score is at least the number of districts whose share reaches the
/// threshold, and at most one more. Each district below the threshold is
/// accounted for by its share as a part of the threshold, and the score holds
/// such a part or none.
pub proof fn scores_count_the_opportunity_districts<F: Fn(Op, Double, Double) -> Double>(
    numbers: Arithmetic<F>,
    threshold: Double,
    shares: Seq<Double>,
    score: Double,
)
    requires
        numbers.counts(),
        numbers.orderly(),
        threshold.finite(),
        double::zero().below(threshold),
        shares.len() < double::WHOLE,
        forall|d: int| 0 <= d < shares.len() ==> double::zero().at_most(#[trigger] shares[d]),
        is_score(numbers, threshold, shares, score),
    ensures
        at_or_above(shares, threshold).finite(),
        ({
            let count = at_or_above(shares, threshold).len() as int;
            &&& numbers.integer(count).at_most(score)
            &&& score.at_most(numbers.integer(count + 1))
            &&& forall|d: int|
                0 <= d < shares.len() && (#[trigger] shares[d]).below(threshold) ==> numbers.sum(
                    numbers.integer(count),
                    numbers.quotient(shares[d], threshold),
                ).at_most(score)
            &&& score == numbers.integer(count) || exists|d: int|
                0 <= d < shares.len() && (#[trigger] shares[d]).below(threshold) && score
                    == numbers.sum(numbers.integer(count), numbers.quotient(shares[d], threshold))
        }),
{
    let marks = opportunities(shares, threshold);
    tally::marks_are_counted_once(marks);
    assert(tally::marked_places(marks) =~= at_or_above(shares, threshold));
    let count = tally::marked(marks);
    tally::tally_bounds(marks, marks.len() as int);
    let (dist, best) = choose|dist: Option<usize>, best: Double| #[trigger]
        below::first_below(shares, threshold, dist, best) && score == score_with(
            numbers,
            threshold,
            count,
            best,
        );
    a_share_at_the_threshold_is_a_whole_district(numbers, threshold, count);
    if let Some(d) = dist {
        assert(shares[d as int] == best);
        a_partial_district_is_no_more_than_a_whole_one(numbers, threshold, count, best, best);
    } else {
        numbers.whole_results(count, count + 1);
    }
    assert forall|d: int| 0 <= d < shares.len() && (#[trigger] shares[d]).below(
        threshold,
    ) implies numbers.sum(
        numbers.integer(count),
        numbers.quotient(shares[d], threshold),
    ).at_most(score) by {
        assert(below::is_below(shares[d], threshold));
        a_partial_district_is_no_more_than_a_whole_one(numbers, threshold, count, shares[d], best);
    }
}

} // verus!
