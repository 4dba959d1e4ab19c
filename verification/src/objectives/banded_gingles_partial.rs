//! Districts inside a band of shares, rewarded below it and penalized above it.

use vstd::prelude::*;
use crate::double::{Arithmetic, Double, Op};
use crate::graph::Graph;
use crate::objectives::incremental::IncrementalObjective;
use crate::objectives::{below, counts, gingles_partial, tally};
use crate::partition::{Partition, Plan};
use crate::recom::proposal::{RecomProposal, Redraw};
use crate::stats::sums;
use crate::{constraints, double, vectors};

verus! {

/// Counts the districts whose minority share lies in a band. The highest share
/// below the band adds a fraction, and so does every share above it.
pub struct BandedGinglesPartial<F> {
    /// The lower edge of the band.
    pub lower: Double,
    /// The upper edge of the band.
    pub upper: Double,
    pub min_pop_col: String,
    pub total_pop_col: String,
    pub arithmetic: Arithmetic<F>,
}

/// What is kept about the districts.
#[derive(Debug)]
pub struct BandedGinglesPartialState {
    pub min_pops: Vec<i64>,
    pub total_pops: Vec<i64>,
    pub in_band_count: usize,
    pub best_below_dist: Option<usize>,
    pub best_below_share: Double,
    /// The parts of the districts above the band, added up.
    pub above_penalty_sum: Double,
    pub score: Double,
}

/// The districts whose share lies in the band.
pub open spec fn in_band(shares: Seq<Double>, lower: Double, upper: Double) -> Seq<bool> {
    Seq::new(shares.len(), |d: int| lower.at_most(shares[d]) && shares[d].at_most(upper))
}

/// What a share above the band adds; other shares add nothing.
pub open spec fn above_part<F: Fn(Op, Double, Double) -> Double>(
    numbers: Arithmetic<F>,
    upper: Double,
    share: Double,
) -> Double {
    if upper.below(share) {
        numbers.quotient(upper, share)
    } else {
        double::zero()
    }
}

/// What the shares above the band add, taken district by district.
pub open spec fn above_total<F: Fn(Op, Double, Double) -> Double>(
    numbers: Arithmetic<F>,
    upper: Double,
    shares: Seq<Double>,
) -> Double
    decreases shares.len(),
{
    if shares.len() == 0 {
        double::zero()
    } else {
        let before = above_total(numbers, upper, shares.drop_last());
        if upper.below(shares.last()) {
            numbers.sum(before, numbers.quotient(upper, shares.last()))
        } else {
            before
        }
    }
}

/// The sum of the parts above the band after two districts changed: the old
/// parts are taken off and the new ones put on.
pub open spec fn above_changed<F: Fn(Op, Double, Double) -> Double>(
    numbers: Arithmetic<F>,
    upper: Double,
    cached: Double,
    old_a: Double,
    old_b: Double,
    new_a: Double,
    new_b: Double,
) -> Double {
    numbers.sum(
        numbers.sum(
            numbers.difference(
                numbers.difference(cached, above_part(numbers, upper, old_a)),
                above_part(numbers, upper, old_b),
            ),
            above_part(numbers, upper, new_a),
        ),
        above_part(numbers, upper, new_b),
    )
}

/// Whether the parts of shares lie on a scale.
pub open spec fn parts_on<F: Fn(Op, Double, Double) -> Double>(
    numbers: Arithmetic<F>,
    upper: Double,
    scale: spec_fn(Double) -> Option<int>,
    shares: Seq<Double>,
) -> bool {
    forall|d: int|
        0 <= d < shares.len() ==> scale(above_part(numbers, upper, #[trigger] shares[d])) is Some
}

/// What the parts of shares stand for on a scale, added up.
pub open spec fn parts_sum<F: Fn(Op, Double, Double) -> Double>(
    numbers: Arithmetic<F>,
    upper: Double,
    scale: spec_fn(Double) -> Option<int>,
    shares: Seq<Double>,
) -> int
    decreases shares.len(),
{
    if shares.len() == 0 {
        0
    } else {
        parts_sum(numbers, upper, scale, shares.drop_last()) + scale(
            above_part(numbers, upper, shares.last()),
        )->0
    }
}

/// How large the parts of shares are on a scale, added up.
pub open spec fn parts_size<F: Fn(Op, Double, Double) -> Double>(
    numbers: Arithmetic<F>,
    upper: Double,
    scale: spec_fn(Double) -> Option<int>,
    shares: Seq<Double>,
) -> int
    decreases shares.len(),
{
    if shares.len() == 0 {
        0
    } else {
        let x = scale(above_part(numbers, upper, shares.last()))->0;
        parts_size(numbers, upper, scale, shares.drop_last()) + (if x < 0 {
            -x
        } else {
            x
        })
    }
}

proof fn total_is_exact<F: Fn(Op, Double, Double) -> Double>(
    numbers: Arithmetic<F>,
    upper: Double,
    scale: spec_fn(Double) -> Option<int>,
    bound: int,
    shares: Seq<Double>,
)
    requires
        numbers.exact_on(scale, bound),
        parts_on(numbers, upper, scale, shares),
        parts_size(numbers, upper, scale, shares) <= bound,
    ensures
        scale(above_total(numbers, upper, shares)) == Some(
            parts_sum(numbers, upper, scale, shares),
        ),
        -parts_size(numbers, upper, scale, shares) <= parts_sum(numbers, upper, scale, shares)
            <= parts_size(numbers, upper, scale, shares),
    decreases shares.len(),
{
    if shares.len() == 0 {
        reveal(Arithmetic::exact_on);
    } else {
        let init = shares.drop_last();
        assert forall|d: int| 0 <= d < init.len() implies scale(
            above_part(numbers, upper, #[trigger] init[d]),
        ) is Some by {
            assert(init[d] == shares[d]);
        }
        total_is_exact(numbers, upper, scale, bound, init);
        assert(scale(above_part(numbers, upper, shares[shares.len() - 1])) is Some);
        numbers.exact_results(
            scale,
            bound,
            above_total(numbers, upper, init),
            above_part(numbers, upper, shares.last()),
        );
    }
}

proof fn sum_with_another_share<F: Fn(Op, Double, Double) -> Double>(
    numbers: Arithmetic<F>,
    upper: Double,
    scale: spec_fn(Double) -> Option<int>,
    shares: Seq<Double>,
    i: int,
    share: Double,
)
    requires
        0 <= i < shares.len(),
    ensures
        parts_sum(numbers, upper, scale, shares.update(i, share)) == parts_sum(
            numbers,
            upper,
            scale,
            shares,
        ) - scale(above_part(numbers, upper, shares[i]))->0 + scale(
            above_part(numbers, upper, share),
        )->0,
    decreases shares.len(),
{
    let more = shares.update(i, share);
    if i == shares.len() - 1 {
        assert(more.drop_last() =~= shares.drop_last());
    } else {
        sum_with_another_share(numbers, upper, scale, shares.drop_last(), i, share);
        assert(more.drop_last() =~= shares.drop_last().update(i, share));
    }
}

proof fn two_parts_are_in_size<F: Fn(Op, Double, Double) -> Double>(
    numbers: Arithmetic<F>,
    upper: Double,
    scale: spec_fn(Double) -> Option<int>,
    shares: Seq<Double>,
    a: int,
    b: int,
)
    requires
        0 <= a < shares.len(),
        0 <= b < shares.len(),
        a != b,
    ensures
        ({
            let size = parts_size(numbers, upper, scale, shares);
            let sum = parts_sum(numbers, upper, scale, shares);
            let x = scale(above_part(numbers, upper, shares[a]))->0;
            let y = scale(above_part(numbers, upper, shares[b]))->0;
            &&& -size <= sum <= size
            &&& -size <= x <= size
            &&& -size <= x + y <= size
            &&& -size <= sum - x <= size
            &&& -size <= sum - x - y <= size
        }),
    decreases shares.len(),
{
    let init = shares.drop_last();
    let last = shares.len() - 1;
    part_is_in_size(numbers, upper, scale, init, if a < last {
        a
    } else {
        b
    });
    if a < last && b < last {
        two_parts_are_in_size(numbers, upper, scale, init, a, b);
    }
}

proof fn part_is_in_size<F: Fn(Op, Double, Double) -> Double>(
    numbers: Arithmetic<F>,
    upper: Double,
    scale: spec_fn(Double) -> Option<int>,
    shares: Seq<Double>,
    a: int,
)
    ensures
        ({
            let size = parts_size(numbers, upper, scale, shares);
            let sum = parts_sum(numbers, upper, scale, shares);
            let x = scale(above_part(numbers, upper, shares[a]))->0;
            &&& 0 <= size
            &&& -size <= sum <= size
            &&& 0 <= a < shares.len() ==> -size <= x <= size && -size <= sum - x <= size
        }),
    decreases shares.len(),
{
    if shares.len() > 0 {
        part_is_in_size(numbers, upper, scale, shares.drop_last(), a);
    }
}

/// The changed sum of the parts above the band is the sum of the parts of the
/// changed shares, where the arithmetic is exact on the parts.
pub proof fn changed_sum_is_the_total<F: Fn(Op, Double, Double) -> Double>(
    numbers: Arithmetic<F>,
    upper: Double,
    scale: spec_fn(Double) -> Option<int>,
    bound: int,
    shares: Seq<Double>,
    a: int,
    b: int,
    new_a: Double,
    new_b: Double,
)
    requires
        numbers.exact_on(scale, bound),
        0 <= a < shares.len(),
        0 <= b < shares.len(),
        a != b,
        parts_on(numbers, upper, scale, shares),
        parts_on(numbers, upper, scale, shares.update(a, new_a).update(b, new_b)),
        parts_size(numbers, upper, scale, shares) + parts_size(
            numbers,
            upper,
            scale,
            shares.update(a, new_a).update(b, new_b),
        ) <= bound,
    ensures
        above_changed(
            numbers,
            upper,
            above_total(numbers, upper, shares),
            shares[a],
            shares[b],
            new_a,
            new_b,
        ) == above_total(numbers, upper, shares.update(a, new_a).update(b, new_b)),
{
    let after = shares.update(a, new_a).update(b, new_b);
    part_is_in_size(numbers, upper, scale, shares, a);
    part_is_in_size(numbers, upper, scale, after, a);
    total_is_exact(numbers, upper, scale, bound, shares);
    total_is_exact(numbers, upper, scale, bound, after);
    sum_with_another_share(numbers, upper, scale, shares, a, new_a);
    sum_with_another_share(numbers, upper, scale, shares.update(a, new_a), b, new_b);
    two_parts_are_in_size(numbers, upper, scale, shares, a, b);
    two_parts_are_in_size(numbers, upper, scale, after, a, b);
    assert(after[a] == new_a && after[b] == new_b);
    let total = above_total(numbers, upper, shares);
    let old_a = above_part(numbers, upper, shares[a]);
    let old_b = above_part(numbers, upper, shares[b]);
    let part_a = above_part(numbers, upper, new_a);
    let part_b = above_part(numbers, upper, new_b);
    assert(scale(above_part(numbers, upper, after[a])) is Some);
    assert(scale(above_part(numbers, upper, after[b])) is Some);
    numbers.exact_results(scale, bound, total, old_a);
    let x = numbers.difference(total, old_a);
    numbers.exact_results(scale, bound, x, old_b);
    let y = numbers.difference(x, old_b);
    numbers.exact_results(scale, bound, y, part_a);
    let z = numbers.sum(y, part_a);
    numbers.exact_results(scale, bound, z, part_b);
    numbers.exact_results(
        scale,
        bound,
        numbers.sum(z, part_b),
        above_total(numbers, upper, after),
    );
}

/// Whether a number is the score of district shares: the number of districts
/// in the band, the highest share below the band as a part of its lower edge,
/// and the parts of the districts above it.
pub open spec fn is_score<F: Fn(Op, Double, Double) -> Double>(
    numbers: Arithmetic<F>,
    lower: Double,
    upper: Double,
    shares: Seq<Double>,
    score: Double,
) -> bool {
    exists|dist: Option<usize>, best: Double| #[trigger]
        below::first_below(shares, lower, dist, best) && score == score_with(
            numbers,
            lower,
            tally::marked(in_band(shares, lower, upper)),
            best,
            above_total(numbers, upper, shares),
        )
}

/// One number is the score of given shares.
pub proof fn score_is_unique<F: Fn(Op, Double, Double) -> Double>(
    numbers: Arithmetic<F>,
    lower: Double,
    upper: Double,
    shares: Seq<Double>,
    x: Double,
    y: Double,
)
    requires
        is_score(numbers, lower, upper, shares, x),
        is_score(numbers, lower, upper, shares, y),
    ensures
        x == y,
{
    assert forall|d1: Option<usize>, b1: Double, d2: Option<usize>, b2: Double|
        #![trigger below::first_below(shares, lower, d1, b1), below::first_below(shares, lower, d2, b2)]
        below::first_below(shares, lower, d1, b1) && below::first_below(
            shares,
            lower,
            d2,
            b2,
        ) implies b1 == b2 by {
        below::first_below_is_unique(shares, lower, d1, b1, d2, b2);
    }
}

/// The score of a number of districts in the band, a partial one and the parts
/// of those above.
pub open spec fn score_with<F: Fn(Op, Double, Double) -> Double>(
    numbers: Arithmetic<F>,
    lower: Double,
    count: int,
    best: Double,
    above: Double,
) -> Double {
    numbers.sum(
        numbers.sum(numbers.integer(count), numbers.quotient(best, lower)),
        above,
    )
}

impl<F: Fn(Op, Double, Double) -> Double> BandedGinglesPartial<F> {
    /// The share of each district of a plan.
    pub open spec fn shares(&self, graph: &Graph, plan: Plan) -> Seq<Double> {
        counts::shares_of(
            self.arithmetic,
            counts::totals(graph, self.min_pop_col@, plan),
            counts::totals(graph, self.total_pop_col@, plan),
        )
    }

    /// The share of each district of a state.
    pub open spec fn state_shares(&self, state: BandedGinglesPartialState) -> Seq<Double> {
        counts::shares_of(
            self.arithmetic,
            counts::ints(state.min_pops@),
            counts::ints(state.total_pops@),
        )
    }

    /// Whether the arithmetic is exact on the parts above the band of a plan.
    pub open spec fn exact_at(
        &self,
        scale: spec_fn(Double) -> Option<int>,
        bound: int,
        graph: &Graph,
        plan: Plan,
    ) -> bool {
        let shares = self.shares(graph, plan);
        &&& self.arithmetic.exact_on(scale, bound)
        &&& parts_on(self.arithmetic, self.upper, scale, shares)
        &&& 2 * parts_size(self.arithmetic, self.upper, scale, shares) <= bound
    }

    /// Whether a state is that of a plan, with the parts above the band added up
    /// as from scratch.
    pub open spec fn sums_up(
        &self,
        graph: &Graph,
        plan: Plan,
        state: BandedGinglesPartialState,
    ) -> bool {
        &&& self.tracks(graph, plan, state)
        &&& state.above_penalty_sum == above_total(
            self.arithmetic,
            self.upper,
            self.shares(graph, plan),
        )
    }

    /// Where the arithmetic is exact on the parts above the band, a proposal
    /// leads to their sum from scratch.
    pub proof fn exact_sums_stay(
        &self,
        scale: spec_fn(Double) -> Option<int>,
        bound: int,
        graph: &Graph,
        plan: Plan,
        before: BandedGinglesPartialState,
        p: Redraw,
        after: BandedGinglesPartialState,
    )
        requires
            self.exact_at(scale, bound, graph, plan),
            self.exact_at(scale, bound, graph, plan.redrawn(p)),
            plan.valid(),
            plan.admits(p),
            plan.assignments.len() == graph.order(),
            graph.sound(),
            self.prepared(graph),
            self.measures(graph, plan),
            self.sums_up(graph, plan, before),
            self.applied(graph, before, p, after),
        ensures
            self.sums_up(graph, plan.redrawn(p), after),
    {
        self.tracked_state_accepts(graph, plan, before, p);
        self.applied_state_tracks(graph, plan, before, p, after);
        let a = p.a_label as int;
        let b = p.b_label as int;
        let shares = self.state_shares(before);
        let changed = self.state_shares(after);
        assert(changed =~= shares.update(a, changed[a]).update(b, changed[b])) by {
            assert(counts::ints(after.min_pops@).len() == counts::ints(before.min_pops@).len());
        }
        changed_sum_is_the_total(
            self.arithmetic,
            self.upper,
            scale,
            bound,
            shares,
            a,
            b,
            changed[a],
            changed[b],
        );
    }

    /// A state with the sums of a plan represents the score of the plan, where
    /// equal shares are equal bit by bit.
    pub proof fn summed_state_rates(
        &self,
        graph: &Graph,
        plan: Plan,
        state: BandedGinglesPartialState,
    )
        requires
            self.sums_up(graph, plan, state),
            below::zeros_agree(self.shares(graph, plan)),
        ensures
            self.rates(graph, plan, self.state_score(state)),
    {
        let shares = self.shares(graph, plan);
        let (dist, best) = below::first_exists(
            shares,
            self.lower,
            state.best_below_dist,
            state.best_below_share,
        );
        below::best_below_is_the_first(
            shares,
            self.lower,
            state.best_below_dist,
            state.best_below_share,
            dist,
            best,
        );
        assert(below::first_below(shares, self.lower, dist, best));
        assert(self.rates(graph, plan, self.state_score(state)));
    }

    fn score_from(&self, count: usize, best: Double, above: Double) -> (r: Double)
        requires
            self.arithmetic.valid(),
            count <= i64::MAX,
        ensures
            r == score_with(self.arithmetic, self.lower, count as int, best, above),
    {
        self.arithmetic.plus(
            self.arithmetic.plus(
                self.arithmetic.of_int(count as i64),
                self.arithmetic.over(best, self.lower),
            ),
            above,
        )
    }

    fn is_in_band(&self, share: Double) -> (r: bool)
        ensures
            r == (self.lower.at_most(share) && share.at_most(self.upper)),
    {
        share.ge(self.lower) && share.le(self.upper)
    }

    fn above_band_contribution(&self, share: Double) -> (r: Double)
        requires
            self.arithmetic.valid(),
        ensures
            r == above_part(self.arithmetic, self.upper, share),
    {
        if share.gt(self.upper) {
            self.arithmetic.over(self.upper, share)
        } else {
            double::zero()
        }
    }

    /// Adds up the parts of the districts above the band.
    fn sum_above(&self, min_pops: &Vec<i64>, total_pops: &Vec<i64>) -> (r: Double)
        requires
            self.arithmetic.valid(),
            min_pops.len() == total_pops.len(),
        ensures
            r == above_total(
                self.arithmetic,
                self.upper,
                counts::shares_of(
                    self.arithmetic,
                    counts::ints(min_pops@),
                    counts::ints(total_pops@),
                ),
            ),
    {
        let ghost shares = counts::shares_of(
            self.arithmetic,
            counts::ints(min_pops@),
            counts::ints(total_pops@),
        );
        let mut acc: Double = double::zero();
        let mut d: usize = 0;
        while d < min_pops.len()
            invariant
                d <= min_pops.len(),
                self.arithmetic.valid(),
                min_pops.len() == total_pops.len(),
                shares == counts::shares_of(
                    self.arithmetic,
                    counts::ints(min_pops@),
                    counts::ints(total_pops@),
                ),
                acc == above_total(self.arithmetic, self.upper, shares.take(d as int)),
            decreases min_pops.len() - d,
        {
            let share: Double = counts::district_share(
                &self.arithmetic,
                min_pops[d],
                total_pops[d],
            );
            if share.gt(self.upper) {
                acc = self.arithmetic.plus(acc, self.arithmetic.over(self.upper, share));
            }
            d += 1;
            assert(shares.take(d as int).drop_last() =~= shares.take(d - 1));
        }
        assert(shares.take(d as int) =~= shares);
        acc
    }

    /// Counts the districts whose share lies in the band.
    fn count_in_band(&self, min_pops: &Vec<i64>, total_pops: &Vec<i64>) -> (r: usize)
        requires
            self.arithmetic.valid(),
            min_pops.len() == total_pops.len(),
        ensures
            r == tally::marked(
                in_band(
                    counts::shares_of(
                        self.arithmetic,
                        counts::ints(min_pops@),
                        counts::ints(total_pops@),
                    ),
                    self.lower,
                    self.upper,
                ),
            ),
            r <= min_pops.len(),
    {
        let ghost marks = in_band(
            counts::shares_of(self.arithmetic, counts::ints(min_pops@), counts::ints(total_pops@)),
            self.lower,
            self.upper,
        );
        let mut count: usize = 0;
        let mut d: usize = 0;
        while d < min_pops.len()
            invariant
                d <= min_pops.len(),
                self.arithmetic.valid(),
                min_pops.len() == total_pops.len(),
                marks == in_band(
                    counts::shares_of(
                        self.arithmetic,
                        counts::ints(min_pops@),
                        counts::ints(total_pops@),
                    ),
                    self.lower,
                    self.upper,
                ),
                count == tally::tally(marks, d as int),
                count <= d,
            decreases min_pops.len() - d,
        {
            let share: Double = counts::district_share(
                &self.arithmetic,
                min_pops[d],
                total_pops[d],
            );
            if self.is_in_band(share) {
                count += 1;
            }
            d += 1;
        }
        count
    }

    /// Scores a plan from scratch.
    pub fn score(&self, graph: &Graph, partition: &Partition) -> (r: Double)
        requires
            graph.sound(),
            partition@.valid(),
            partition@.assignments.len() == graph.order(),
            self.measures(graph, partition@),
        ensures
            is_score(
                self.arithmetic,
                self.lower,
                self.upper,
                self.shares(graph, partition@),
                r,
            ),
    {
        self.init(graph, partition).score
    }

    /// What the redrawn districts' counts lead to.
    fn single_update(
        &self,
        state: &BandedGinglesPartialState,
        a: usize,
        b: usize,
        new_a: (i64, i64),
        new_b: (i64, i64),
    ) -> (r: (usize, Option<usize>, Double, Double))
        requires
            self.suits(*state),
            a < state.min_pops.len(),
            b < state.min_pops.len(),
            a != b,
        ensures
            ({
                let shares = self.state_shares(*state).update(
                    a as int,
                    counts::share_of(self.arithmetic, new_a.0 as int, new_a.1 as int),
                ).update(
                    b as int,
                    counts::share_of(self.arithmetic, new_b.0 as int, new_b.1 as int),
                );
                &&& r.0 == tally::marked(in_band(shares, self.lower, self.upper))
                &&& r.0 <= state.min_pops.len()
                &&& below::best_below(shares, self.lower, r.1, r.2)
                &&& r.3 == above_changed(
                    self.arithmetic,
                    self.upper,
                    state.above_penalty_sum,
                    self.state_shares(*state)[a as int],
                    self.state_shares(*state)[b as int],
                    shares[a as int],
                    shares[b as int],
                )
            }),
    {
        let ghost before = self.state_shares(*state);
        let old_a_share: Double = counts::district_share(
            &self.arithmetic,
            state.min_pops[a],
            state.total_pops[a],
        );
        let old_b_share: Double = counts::district_share(
            &self.arithmetic,
            state.min_pops[b],
            state.total_pops[b],
        );
        let new_a_share: Double = counts::district_share(&self.arithmetic, new_a.0, new_a.1);
        let new_b_share: Double = counts::district_share(&self.arithmetic, new_b.0, new_b.1);
        proof {
            let marks = in_band(before, self.lower, self.upper);
            let x = self.lower.at_most(new_a_share) && new_a_share.at_most(self.upper);
            let y = self.lower.at_most(new_b_share) && new_b_share.at_most(self.upper);
            tally::marked_with_two_changed(marks, a as int, x, b as int, y);
            assert(in_band(
                before.update(a as int, new_a_share).update(b as int, new_b_share),
                self.lower,
                self.upper,
            ) =~= marks.update(a as int, x).update(b as int, y));
        }
        let mut count: usize = state.in_band_count;
        if self.is_in_band(old_a_share) {
            count -= 1;
        }
        if self.is_in_band(old_b_share) {
            count -= 1;
        }
        if self.is_in_band(new_a_share) {
            count += 1;
        }
        if self.is_in_band(new_b_share) {
            count += 1;
        }
        let (dist, best): (Option<usize>, Double) = below::update_best_below(
            &self.arithmetic,
            &state.min_pops,
            &state.total_pops,
            self.lower,
            state.best_below_dist,
            state.best_below_share,
            a,
            b,
            new_a_share,
            new_b_share,
        );
        let without_a: Double = self.arithmetic.minus(
            state.above_penalty_sum,
            self.above_band_contribution(old_a_share),
        );
        let without: Double = self.arithmetic.minus(
            without_a,
            self.above_band_contribution(old_b_share),
        );
        let with_a: Double = self.arithmetic.plus(
            without,
            self.above_band_contribution(new_a_share),
        );
        let above: Double = self.arithmetic.plus(
            with_a,
            self.above_band_contribution(new_b_share),
        );
        (count, dist, best, above)
    }
}

impl<F: Fn(Op, Double, Double) -> Double> IncrementalObjective for BandedGinglesPartial<F> {
    type State = BandedGinglesPartialState;

    open spec fn measures(&self, graph: &Graph, plan: Plan) -> bool {
        &&& self.arithmetic.valid()
        &&& counts::readable(graph, self.min_pop_col@)
        &&& counts::readable(graph, self.total_pop_col@)
    }

    open spec fn prepared(&self, graph: &Graph) -> bool {
        &&& self.arithmetic.valid()
        &&& counts::cached(graph, self.min_pop_col@)
        &&& counts::cached(graph, self.total_pop_col@)
    }

    open spec fn tracks(&self, graph: &Graph, plan: Plan, state: BandedGinglesPartialState) -> bool {
        &&& counts::ints(state.min_pops@) == counts::totals(graph, self.min_pop_col@, plan)
        &&& counts::ints(state.total_pops@) == counts::totals(graph, self.total_pop_col@, plan)
        &&& self.suits(state)
    }

    open spec fn fresh(&self, graph: &Graph, plan: Plan, state: BandedGinglesPartialState) -> bool {
        &&& self.sums_up(graph, plan, state)
        &&& below::first_below(
            self.shares(graph, plan),
            self.lower,
            state.best_below_dist,
            state.best_below_share,
        )
    }

    open spec fn rates(&self, graph: &Graph, plan: Plan, score: Double) -> bool {
        is_score(self.arithmetic, self.lower, self.upper, self.shares(graph, plan), score)
    }

    open spec fn suits(&self, state: BandedGinglesPartialState) -> bool {
        &&& self.arithmetic.valid()
        &&& state.min_pops.len() == state.total_pops.len()
        &&& state.min_pops.len() <= u32::MAX
        &&& state.in_band_count == tally::marked(
            in_band(self.state_shares(state), self.lower, self.upper),
        )
        &&& below::best_below(
            self.state_shares(state),
            self.lower,
            state.best_below_dist,
            state.best_below_share,
        )
        &&& state.score == score_with(
            self.arithmetic,
            self.lower,
            state.in_band_count as int,
            state.best_below_share,
            state.above_penalty_sum,
        )
    }

    open spec fn accepts(&self, graph: &Graph, state: BandedGinglesPartialState, p: Redraw) -> bool {
        &&& p.a_label < state.min_pops.len()
        &&& p.b_label < state.min_pops.len()
        &&& p.a_label != p.b_label
        &&& sums::nodes_within(p.a_nodes, graph.order())
        &&& sums::nodes_within(p.b_nodes, graph.order())
    }

    open spec fn applied(
        &self,
        graph: &Graph,
        before: BandedGinglesPartialState,
        p: Redraw,
        after: BandedGinglesPartialState,
    ) -> bool {
        &&& counts::ints(after.min_pops@) == counts::ints(before.min_pops@).update(
            p.a_label as int,
            counts::total(graph, self.min_pop_col@, p.a_nodes),
        ).update(p.b_label as int, counts::total(graph, self.min_pop_col@, p.b_nodes))
        &&& counts::ints(after.total_pops@) == counts::ints(before.total_pops@).update(
            p.a_label as int,
            counts::total(graph, self.total_pop_col@, p.a_nodes),
        ).update(p.b_label as int, counts::total(graph, self.total_pop_col@, p.b_nodes))
        &&& after.above_penalty_sum == above_changed(
            self.arithmetic,
            self.upper,
            before.above_penalty_sum,
            self.state_shares(before)[p.a_label as int],
            self.state_shares(before)[p.b_label as int],
            self.state_shares(after)[p.a_label as int],
            self.state_shares(after)[p.b_label as int],
        )
        &&& self.suits(after)
    }

    open spec fn state_score(&self, state: BandedGinglesPartialState) -> Double {
        state.score
    }

    open spec fn state_district_scores(&self, state: BandedGinglesPartialState) -> Seq<Double> {
        counts::shares_or_zero(
            self.arithmetic,
            counts::ints(state.min_pops@),
            counts::ints(state.total_pops@),
        )
    }

    proof fn fresh_state_rates(
        &self,
        graph: &Graph,
        plan: Plan,
        state: BandedGinglesPartialState,
    ) {
        assert(self.fresh(graph, plan, state));
        assert(below::first_below(
            self.shares(graph, plan),
            self.lower,
            state.best_below_dist,
            state.best_below_share,
        ));
        assert(self.rates(graph, plan, self.state_score(state)));
    }

    proof fn applied_state_tracks(
        &self,
        graph: &Graph,
        plan: Plan,
        before: BandedGinglesPartialState,
        p: Redraw,
        after: BandedGinglesPartialState,
    ) {
        counts::redrawn_totals(graph, self.min_pop_col@, plan, p);
        counts::redrawn_totals(graph, self.total_pop_col@, plan, p);
    }

    proof fn tracked_state_accepts(
        &self,
        graph: &Graph,
        plan: Plan,
        state: BandedGinglesPartialState,
        p: Redraw,
    ) {
        constraints::redrawn_nodes_are_within(plan, p);
        assert(counts::ints(state.min_pops@).len() == plan.dist_nodes.len());
    }

    proof fn redrawn_is_measured(&self, graph: &Graph, plan: Plan, p: Redraw) {
    }

    fn init(&self, graph: &Graph, partition: &Partition) -> (r: BandedGinglesPartialState) {
        let min_pops: Vec<i64> = counts::partition_attr_sums(
            graph,
            partition,
            self.min_pop_col.as_str(),
        );
        let total_pops: Vec<i64> = counts::partition_attr_sums(
            graph,
            partition,
            self.total_pop_col.as_str(),
        );
        assert(counts::ints(min_pops@).len() == partition@.dist_nodes.len());
        assert(counts::ints(total_pops@).len() == partition@.dist_nodes.len());
        let in_band_count: usize = self.count_in_band(&min_pops, &total_pops);
        let (best_below_dist, best_below_share): (Option<usize>, Double) = below::find_best_below(
            &self.arithmetic,
            &min_pops,
            &total_pops,
            self.lower,
        );
        let above_penalty_sum: Double = self.sum_above(&min_pops, &total_pops);
        let score: Double = self.score_from(in_band_count, best_below_share, above_penalty_sum);
        let r: BandedGinglesPartialState = BandedGinglesPartialState {
            min_pops,
            total_pops,
            in_band_count,
            best_below_dist,
            best_below_share,
            above_penalty_sum,
            score,
        };
        proof {
            self.fresh_state_rates(graph, partition@, r);
        }
        r
    }

    fn score_state(&self, state: &BandedGinglesPartialState) -> (r: Double) {
        state.score
    }

    fn score_proposal(
        &self,
        graph: &Graph,
        current: &BandedGinglesPartialState,
        proposal: &RecomProposal,
    ) -> (r: Double) {
        let mut next: BandedGinglesPartialState = BandedGinglesPartialState {
            min_pops: vectors::copied(&current.min_pops),
            total_pops: vectors::copied(&current.total_pops),
            in_band_count: current.in_band_count,
            best_below_dist: current.best_below_dist,
            best_below_share: current.best_below_share,
            above_penalty_sum: current.above_penalty_sum,
            score: current.score,
        };
        self.apply_proposal(graph, &mut next, proposal);
        assert(self.applied(graph, *current, proposal@, next));
        next.score
    }

    fn apply_proposal(
        &self,
        graph: &Graph,
        state: &mut BandedGinglesPartialState,
        proposal: &RecomProposal,
    ) {
        let a: usize = proposal.a_label;
        let b: usize = proposal.b_label;
        let new_a: (i64, i64) = (
            counts::sum_attr_over(graph, self.min_pop_col.as_str(), &proposal.a_nodes),
            counts::sum_attr_over(graph, self.total_pop_col.as_str(), &proposal.a_nodes),
        );
        let new_b: (i64, i64) = (
            counts::sum_attr_over(graph, self.min_pop_col.as_str(), &proposal.b_nodes),
            counts::sum_attr_over(graph, self.total_pop_col.as_str(), &proposal.b_nodes),
        );
        let ghost before = *state;
        let (count, dist, best, above): (usize, Option<usize>, Double, Double) = self.single_update(
            state,
            a,
            b,
            new_a,
            new_b,
        );
        state.min_pops.set(a, new_a.0);
        state.total_pops.set(a, new_a.1);
        state.min_pops.set(b, new_b.0);
        state.total_pops.set(b, new_b.1);
        state.in_band_count = count;
        state.best_below_dist = dist;
        state.best_below_share = best;
        state.above_penalty_sum = above;
        state.score = self.score_from(count, best, above);
        proof {
            assert(counts::ints(state.min_pops@) =~= counts::ints(before.min_pops@).update(
                a as int,
                new_a.0 as int,
            ).update(b as int, new_b.0 as int));
            assert(counts::ints(state.total_pops@) =~= counts::ints(before.total_pops@).update(
                a as int,
                new_a.1 as int,
            ).update(b as int, new_b.1 as int));
            assert(self.state_shares(*state) =~= self.state_shares(before).update(
                a as int,
                counts::share_of(self.arithmetic, new_a.0 as int, new_a.1 as int),
            ).update(
                b as int,
                counts::share_of(self.arithmetic, new_b.0 as int, new_b.1 as int),
            ));
        }
    }

    fn district_scores(&self, state: &BandedGinglesPartialState) -> (r: Vec<Double>) {
        counts::district_shares(&self.arithmetic, &state.min_pops, &state.total_pops)
    }
}

/// Where no share lies above the band, districts score as those do whose share
/// reaches its lower edge.
pub proof fn bands_without_excess_score_like_a_threshold<F: Fn(Op, Double, Double) -> Double>(
    numbers: Arithmetic<F>,
    lower: Double,
    upper: Double,
    shares: Seq<Double>,
    score: Double,
    other: Double,
)
    requires
        numbers.counts(),
        numbers.orderly(),
        lower.finite(),
        double::zero().below(lower),
        shares.len() < double::WHOLE,
        forall|d: int|
            0 <= d < shares.len() ==> double::zero().at_most(#[trigger] shares[d])
                && shares[d].at_most(upper),
        is_score(numbers, lower, upper, shares, score),
        gingles_partial::is_score(numbers, lower, shares, other),
    ensures
        score.same_number(other),
{
    let marks = in_band(shares, lower, upper);
    let others = gingles_partial::opportunities(shares, lower);
    assert(marks =~= others);
    let count = tally::marked(marks);
    tally::tally_bounds(marks, marks.len() as int);
    nothing_above(numbers, upper, shares);
    let (d1, b1) = choose|dist: Option<usize>, best: Double| #[trigger]
        below::first_below(shares, lower, dist, best) && score == score_with(
            numbers,
            lower,
            count,
            best,
            above_total(numbers, upper, shares),
        );
    let (d2, b2) = choose|dist: Option<usize>, best: Double| #[trigger]
        below::first_below(shares, lower, dist, best) && other == gingles_partial::score_with(
            numbers,
            lower,
            count,
            best,
        );
    below::first_below_is_unique(shares, lower, d1, b1, d2, b2);
    gingles_partial::scores_count_the_opportunity_districts(numbers, lower, shares, other);
    numbers.whole_results(0, count);
    numbers.whole_results(count, count + 1);
    let m = gingles_partial::at_or_above(shares, lower).len() as int;
    tally::marks_are_counted_once(others);
    assert(tally::marked_places(others) =~= gingles_partial::at_or_above(shares, lower));
    assert(numbers.integer(0).at_most(other));
    assert(other.at_most(numbers.integer(count + 1)));
    numbers.ordered_results(other, other, other);
}

/// A share above the band adds the upper edge over the share: no more than one,
/// and less the further the share lies above.
pub proof fn excess_adds_less_and_less<F: Fn(Op, Double, Double) -> Double>(
    numbers: Arithmetic<F>,
    upper: Double,
    share: Double,
    higher: Double,
)
    requires
        numbers.orderly(),
        upper.finite(),
        share.finite(),
        higher.finite(),
        double::zero().below(upper),
        upper.below(share),
        share.at_most(higher),
    ensures
        above_part(numbers, upper, share).below(double::one()),
        above_part(numbers, upper, higher).at_most(above_part(numbers, upper, share)),
        double::zero().at_most(above_part(numbers, upper, higher)),
        above_part(numbers, upper, upper) == double::zero(),
{
    numbers.ordered_quotients(upper, upper, share, higher);
    numbers.ordered_quotients(upper, upper, share, share);
}

proof fn nothing_above<F: Fn(Op, Double, Double) -> Double>(
    numbers: Arithmetic<F>,
    upper: Double,
    shares: Seq<Double>,
)
    requires
        forall|d: int| 0 <= d < shares.len() ==> (#[trigger] shares[d]).at_most(upper),
    ensures
        above_total(numbers, upper, shares) == double::zero(),
    decreases shares.len(),
{
    if shares.len() > 0 {
        let init = shares.drop_last();
        assert forall|d: int| 0 <= d < init.len() implies (#[trigger] init[d]).at_most(upper) by {
            assert(init[d] == shares[d]);
        }
        nothing_above(numbers, upper, init);
        assert(shares[shares.len() - 1].at_most(upper));
    }
}

/// One more district adds its own part and nothing else: a district above the
/// band adds the upper edge over its share to the excess.
pub proof fn each_district_above_adds_its_part<F: Fn(Op, Double, Double) -> Double>(
    numbers: Arithmetic<F>,
    upper: Double,
    shares: Seq<Double>,
    share: Double,
)
    ensures
        upper.below(share) ==> above_total(numbers, upper, shares.push(share)) == numbers.sum(
            above_total(numbers, upper, shares),
            numbers.quotient(upper, share),
        ),
        !upper.below(share) ==> above_total(numbers, upper, shares.push(share)) == above_total(
            numbers,
            upper,
            shares,
        ),
{
    assert(shares.push(share).drop_last() =~= shares);
}

} // verus!
