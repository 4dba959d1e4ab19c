//! Tilted runs: when a proposal with a worse score is accepted, and where the
//! walk stands after each proposal.

use rand::rngs::SmallRng;
use vstd::prelude::*;
use crate::double;
use crate::double::{Arithmetic, Double, Op};
use crate::recom::{chain, short_bursts};
use crate::stats::counts;
use crate::stats::counts::{SelfLoopCounts, SelfLoopReason};
use crate::{columns, random};

verus! {

/// How much worse a proposed score is than the current one.
pub open spec fn loss_of<F: Fn(Op, Double, Double) -> Double>(
    numbers: Arithmetic<F>,
    current: Double,
    proposed: Double,
    maximize: bool,
) -> Double {
    if maximize {
        numbers.difference(current, proposed)
    } else {
        numbers.difference(proposed, current)
    }
}

/// A number, or zero where it is negative or no number.
pub open spec fn at_least_zero(x: Double) -> Double {
    if double::zero().below(x) {
        x
    } else {
        double::zero()
    }
}

/// Accepts a proposal that is no better with a probability that falls linearly
/// with the loss of score.
#[derive(Clone, Copy, Debug, PartialEq, Eq, Structural)]
pub struct LinearAcceptance {
    pub beta: Double,
}

impl LinearAcceptance {
    /// The probability of accepting a proposal: one minus `beta` times the
    /// loss, or zero where that is negative.
    pub open spec fn chance<F: Fn(Op, Double, Double) -> Double>(
        self,
        numbers: Arithmetic<F>,
        current: Double,
        proposed: Double,
        maximize: bool,
    ) -> Double {
        at_least_zero(
            numbers.difference(
                double::one(),
                numbers.product(self.beta, loss_of(numbers, current, proposed, maximize)),
            ),
        )
    }

    /// Whether random bits accept a proposal.
    pub fn accepts<F: Fn(Op, Double, Double) -> Double>(
        &self,
        numbers: &Arithmetic<F>,
        current: Double,
        proposed: Double,
        maximize: bool,
        bits: u64,
    ) -> (r: bool)
        requires
            numbers.valid(),
        ensures
            r == numbers.unit_of(bits).below(self.chance(*numbers, current, proposed, maximize)),
    {
        let loss: Double = if maximize {
            numbers.minus(current, proposed)
        } else {
            numbers.minus(proposed, current)
        };
        let rest: Double = numbers.minus(double::one(), numbers.times(self.beta, loss));
        let chance: Double = if double::zero().lt(rest) {
            rest
        } else {
            double::zero()
        };
        numbers.unit(bits).lt(chance)
    }

    /// Decides by chance whether to accept a proposal that is no better: by the
    /// next bits of the generator.
    pub fn accept_worse<F: Fn(Op, Double, Double) -> Double>(
        &self,
        numbers: &Arithmetic<F>,
        current: Double,
        proposed: Double,
        maximize: bool,
        rng: &mut SmallRng,
    ) -> (r: bool)
        requires
            numbers.valid(),
        ensures
            exists|bits: u64| #[trigger]
                random::gives(*old(rng), bits, *final(rng)) && r == numbers.unit_of(bits).below(
                    self.chance(*numbers, current, proposed, maximize),
                ),
    {
        let bits: u64 = random::draw_bits(rng);
        self.accepts(numbers, current, proposed, maximize, bits)
    }
}

/// A proposal whose scaled loss is one or more is never accepted.
pub proof fn large_losses_are_never_accepted<F: Fn(Op, Double, Double) -> Double>(
    rule: LinearAcceptance,
    numbers: Arithmetic<F>,
    current: Double,
    proposed: Double,
    maximize: bool,
    bits: u64,
)
    requires
        ({
            let rest = numbers.difference(
                double::one(),
                numbers.product(rule.beta, loss_of(numbers, current, proposed, maximize)),
            );
            rest.at_most(double::zero())
        }),
        double::zero().at_most(numbers.unit_of(bits)),
    ensures
        !numbers.unit_of(bits).below(rule.chance(numbers, current, proposed, maximize)),
{
}

/// A rule for accepting proposals that are no better.
#[derive(Clone, Copy, Debug, PartialEq, Eq, Structural)]
pub enum AcceptanceConfig {
    /// With a fixed probability.
    Fixed(Double),
    Linear(LinearAcceptance),
    /// With a probability that falls exponentially with the loss, by a factor.
    Exponential(Double),
}

/// Whether a number is outside of zero to one.
pub open spec fn no_probability(x: Double) -> bool {
    x.below(double::zero()) || double::one().below(x)
}

/// The factor of a rule: one where none is given.
pub open spec fn beta_of(acceptance_beta: Option<Double>) -> Double {
    match acceptance_beta {
        Some(beta) => beta,
        None => double::one(),
    }
}

/// What is wrong with the parameters of a rule, if anything is.
pub open spec fn rule_error(
    rule: Seq<char>,
    accept_worse_prob: Option<Double>,
    acceptance_beta: Option<Double>,
) -> Option<Seq<char>> {
    let beta = beta_of(acceptance_beta);
    if rule == "fixed"@ {
        match accept_worse_prob {
            None => Some(
                "Parameter error: '--accept-worse-prob' is required when '--accept-rule' is 'fixed'."@,
            ),
            Some(prob) => if no_probability(prob) {
                Some("Parameter error: '--accept-worse-prob' must be between 0 and 1."@)
            } else if acceptance_beta is Some {
                Some(
                    "Parameter error: '--acceptance-beta' is only valid with '--accept-rule linear' or '--accept-rule exponential'."@,
                )
            } else {
                None
            },
        }
    } else if rule == "linear"@ {
        if accept_worse_prob is Some {
            Some("Parameter error: '--accept-worse-prob' is only valid with '--accept-rule fixed'."@)
        } else if !beta.finite() || beta.at_most(double::zero()) {
            Some("Parameter error: '--acceptance-beta' must be a finite positive number."@)
        } else {
            None
        }
    } else if rule == "exponential"@ {
        if !beta.finite() || beta.below(double::zero()) {
            Some("Parameter error: '--acceptance-beta' must be a finite non-negative number."@)
        } else if accept_worse_prob is Some {
            Some("Parameter error: '--accept-worse-prob' is only valid with '--accept-rule fixed'."@)
        } else {
            None
        }
    } else {
        Some("Parameter error: unknown acceptance rule '"@ + rule + "'."@)
    }
}

/// The rule that a name and its parameters give.
pub open spec fn rule_of(
    rule: Seq<char>,
    accept_worse_prob: Option<Double>,
    acceptance_beta: Option<Double>,
) -> AcceptanceConfig {
    let beta = beta_of(acceptance_beta);
    if rule == "fixed"@ {
        AcceptanceConfig::Fixed(accept_worse_prob->0)
    } else if rule == "linear"@ {
        AcceptanceConfig::Linear(LinearAcceptance { beta })
    } else {
        AcceptanceConfig::Exponential(beta)
    }
}

/// The rule that a name and its parameters give.
pub fn acceptance_config(
    rule: &str,
    accept_worse_prob: Option<Double>,
    acceptance_beta: Option<Double>,
) -> (r: Result<AcceptanceConfig, String>)
    ensures
        match rule_error(rule@, accept_worse_prob, acceptance_beta) {
            Some(message) => r matches Err(e) && e@ == message,
            None => r matches Ok(config) && config == rule_of(
                rule@,
                accept_worse_prob,
                acceptance_beta,
            ),
        },
{
    proof {
        reveal_strlit("fixed");
        reveal_strlit("linear");
        reveal_strlit("exponential");
        assert("fixed"@[0] == 'f' && "linear"@[0] == 'l' && "exponential"@[0] == 'e');
    }
    let beta: Double = match acceptance_beta {
        Some(beta) => beta,
        None => double::one(),
    };
    if columns::str_eq(rule, "fixed") {
        let prob: Double = match accept_worse_prob {
            Some(prob) => prob,
            None => {
                return Err(
                    "Parameter error: '--accept-worse-prob' is required when '--accept-rule' is 'fixed'.".to_string(),
                );
            },
        };
        if prob.lt(double::zero()) || prob.gt(double::one()) {
            return Err(
                "Parameter error: '--accept-worse-prob' must be between 0 and 1.".to_string(),
            );
        }
        if acceptance_beta.is_some() {
            return Err(
                "Parameter error: '--acceptance-beta' is only valid with '--accept-rule linear' or '--accept-rule exponential'.".to_string(),
            );
        }
        return Ok(AcceptanceConfig::Fixed(prob));
    }
    if columns::str_eq(rule, "linear") {
        if accept_worse_prob.is_some() {
            return Err(
                "Parameter error: '--accept-worse-prob' is only valid with '--accept-rule fixed'.".to_string(),
            );
        }
        if !beta.is_finite() || beta.le(double::zero()) {
            return Err(
                "Parameter error: '--acceptance-beta' must be a finite positive number.".to_string(),
            );
        }
        return Ok(AcceptanceConfig::Linear(LinearAcceptance { beta }));
    }
    if columns::str_eq(rule, "exponential") {
        if !beta.is_finite() || beta.lt(double::zero()) {
            return Err(
                "Parameter error: '--acceptance-beta' must be a finite non-negative number.".to_string(),
            );
        }
        if accept_worse_prob.is_some() {
            return Err(
                "Parameter error: '--accept-worse-prob' is only valid with '--accept-rule fixed'.".to_string(),
            );
        }
        return Ok(AcceptanceConfig::Exponential(beta));
    }
    let mut out: String = "Parameter error: unknown acceptance rule '".to_string();
    out.append(rule);
    out.append("'.");
    Err(out)
}

/// Whether random bits accept a proposal that is accepted with a fixed
/// probability.
pub fn accepts_with<F: Fn(Op, Double, Double) -> Double>(
    numbers: &Arithmetic<F>,
    prob: Double,
    bits: u64,
) -> (r: bool)
    requires
        numbers.valid(),
    ensures
        r == numbers.unit_of(bits).below(prob),
{
    numbers.unit(bits).lt(prob)
}

/// A proposal of a tilted walk: its score, and whether chance accepts it where
/// it is no better.
#[derive(Clone, Copy, Debug, PartialEq, Eq, Structural)]
pub struct Trial {
    pub score: Double,
    pub chance: bool,
}

/// Where the trials of a tilted walk lead to.
pub struct TiltedStanding {
    /// The score of the plan that the next trial starts from.
    pub score: Double,
    /// The best score of the walk.
    pub best: Double,
    /// The number of trials since the last one that was accepted.
    pub waiting: nat,
}

/// Whether a trial is accepted at a score.
pub open spec fn taken(score: Double, trial: Trial, maximize: bool) -> bool {
    short_bursts::better(trial.score, score, maximize) || trial.chance
}

/// A standing after one more trial.
pub open spec fn tried(before: TiltedStanding, trial: Trial, maximize: bool) -> TiltedStanding {
    if taken(before.score, trial, maximize) {
        TiltedStanding {
            score: trial.score,
            best: if short_bursts::better(trial.score, before.best, maximize) {
                trial.score
            } else {
                before.best
            },
            waiting: 0,
        }
    } else {
        TiltedStanding { waiting: before.waiting + 1, ..before }
    }
}

/// Where trials lead to from a seed plan with a score.
pub open spec fn standing_after(
    seed: Double,
    trials: Seq<Trial>,
    maximize: bool,
) -> TiltedStanding
    decreases trials.len(),
{
    if trials.len() == 0 {
        TiltedStanding { score: seed, best: seed, waiting: 0 }
    } else {
        tried(standing_after(seed, trials.drop_last(), maximize), trials.last(), maximize)
    }
}

/// The number of trials that the records of accepted plans account for: each
/// record stands for its own trial and for the rejected ones before it.
pub open spec fn accounted(seed: Double, trials: Seq<Trial>, maximize: bool) -> nat
    decreases trials.len(),
{
    if trials.len() == 0 {
        0
    } else {
        let before = standing_after(seed, trials.drop_last(), maximize);
        accounted(seed, trials.drop_last(), maximize) + (if taken(
            before.score,
            trials.last(),
            maximize,
        ) {
            1 + before.waiting
        } else {
            0
        })
    }
}

/// Every trial is either accounted for by a record or waits for the next one.
pub proof fn every_trial_is_recorded_or_waits(seed: Double, trials: Seq<Trial>, maximize: bool)
    ensures
        accounted(seed, trials, maximize) + standing_after(seed, trials, maximize).waiting
            == trials.len(),
    decreases trials.len(),
{
    if trials.len() > 0 {
        every_trial_is_recorded_or_waits(seed, trials.drop_last(), maximize);
    }
}

/// A walk in which chance accepts nothing stands at its best score.
pub proof fn without_chance_the_score_only_improves(
    seed: Double,
    trials: Seq<Trial>,
    maximize: bool,
)
    requires
        forall|i: int| 0 <= i < trials.len() ==> !(#[trigger] trials[i]).chance,
    ensures
        standing_after(seed, trials, maximize).score == standing_after(seed, trials, maximize).best,
    decreases trials.len(),
{
    if trials.len() > 0 {
        let before = trials.drop_last();
        assert forall|i: int| 0 <= i < before.len() implies !(#[trigger] before[i]).chance by {
            assert(before[i] == trials[i]);
        }
        without_chance_the_score_only_improves(seed, before, maximize);
        assert(!trials[trials.len() - 1].chance);
    }
}

/// The best score of a walk is never lost: after more trials it is the same or
/// a better one. So each trial that improves on it is strictly better than
/// every one that did so before.
pub proof fn the_best_score_is_never_lost(
    seed: Double,
    trials: Seq<Trial>,
    count: int,
    maximize: bool,
)
    requires
        0 <= count <= trials.len(),
    ensures
        ({
            let earlier = standing_after(seed, trials.take(count), maximize).best;
            let later = standing_after(seed, trials, maximize).best;
            later == earlier || short_bursts::better(later, earlier, maximize)
        }),
    decreases trials.len(),
{
    if count == trials.len() {
        assert(trials.take(count) =~= trials);
    } else {
        assert(trials.drop_last().take(count) =~= trials.take(count));
        the_best_score_is_never_lost(seed, trials.drop_last(), count, maximize);
    }
}

/// What a trial of a tilted walk did.
#[derive(Clone, Copy, Debug, PartialEq, Eq, Structural)]
pub struct TiltedStep {
    /// The number of the trial, counted from one.
    pub step: u64,
    pub accepted: bool,
    /// The trial reached a better score than every plan before it.
    pub improved: bool,
    /// The rejected trials that an accepted one accounts for.
    pub counts: SelfLoopCounts,
}

/// A tilted walk: a proposal is accepted where its score is better, and
/// otherwise where chance accepts it.
#[derive(Clone, Copy, Debug)]
pub struct TiltedRun {
    score: Double,
    best: Double,
    step: u64,
    last: u64,
    waiting: usize,
    maximize: bool,
}

impl TiltedRun {
    /// Where the walk stands.
    pub closed spec fn here(&self) -> TiltedStanding {
        TiltedStanding { score: self.score, best: self.best, waiting: self.waiting as nat }
    }

    /// The number of trials made.
    pub closed spec fn position(&self) -> int {
        self.step as int
    }

    /// The number of trials of the walk.
    pub closed spec fn target(&self) -> int {
        self.last as int
    }

    pub closed spec fn maximizes(&self) -> bool {
        self.maximize
    }

    pub open spec fn valid(&self) -> bool {
        &&& self.here().waiting <= self.position() <= self.target()
        &&& self.target() < usize::MAX
    }

    /// The walk stands where its trials lead to.
    pub open spec fn follows(&self, seed: Double, trials: Seq<Trial>) -> bool {
        &&& self.position() == trials.len()
        &&& self.here() == standing_after(seed, trials, self.maximizes())
    }

    /// A walk from a seed plan. The seed plan is the first output record, so
    /// the walk has one trial fewer than there are steps.
    pub fn new(score: Double, num_steps: u64, maximize: bool) -> (r: TiltedRun)
        requires
            num_steps <= usize::MAX,
        ensures
            r.valid(),
            r.target() == chain::run_length(num_steps),
            r.maximizes() == maximize,
            r.here().score == score,
            r.follows(score, Seq::<Trial>::empty()),
    {
        let last: u64 = if num_steps == 0 {
            0
        } else {
            num_steps - 1
        };
        TiltedRun { score, best: score, step: 0, last, waiting: 0, maximize }
    }

    pub fn done(&self) -> (r: bool)
        ensures
            r == (self.position() >= self.target()),
    {
        self.step >= self.last
    }

    /// Whether a proposal is accepted whatever chance says.
    pub fn improves(&self, proposed: Double) -> (r: bool)
        ensures
            r == short_bursts::better(proposed, self.here().score, self.maximizes()),
    {
        short_bursts::is_better(proposed, self.score, self.maximize)
    }

    /// The score of the plan that the next trial starts from.
    pub fn current_score(&self) -> (r: Double)
        ensures
            r == self.here().score,
    {
        self.score
    }

    /// Makes a trial.
    pub fn consider(&mut self, trial: Trial) -> (r: TiltedStep)
        requires
            old(self).valid(),
            old(self).position() < old(self).target(),
        ensures
            final(self).valid(),
            final(self).target() == old(self).target(),
            final(self).maximizes() == old(self).maximizes(),
            final(self).position() == old(self).position() + 1,
            final(self).here() == tried(old(self).here(), trial, old(self).maximizes()),
            forall|seed: Double, trials: Seq<Trial>| #[trigger]
                old(self).follows(seed, trials) ==> final(self).follows(seed, trials.push(trial)),
            r.step == final(self).position(),
            r.accepted == taken(old(self).here().score, trial, old(self).maximizes()),
            r.improved == (r.accepted && short_bursts::better(
                trial.score,
                old(self).here().best,
                old(self).maximizes(),
            )),
            r.accepted ==> r.counts.shifted(
                counts::no_loops(),
                SelfLoopReason::TiltedRejection,
                old(self).here().waiting as int,
            ),
            !r.accepted ==> r.counts == counts::no_loops(),
    {
        self.step = self.step + 1;
        let mut counts: SelfLoopCounts = SelfLoopCounts::default();
        let accepted: bool = short_bursts::is_better(trial.score, self.score, self.maximize)
            || trial.chance;
        let improved: bool = accepted && short_bursts::is_better(
            trial.score,
            self.best,
            self.maximize,
        );
        if accepted {
            counts.inc_by(SelfLoopReason::TiltedRejection, self.waiting);
            self.score = trial.score;
            if improved {
                self.best = trial.score;
            }
            self.waiting = 0;
        } else {
            self.waiting = self.waiting + 1;
        }
        proof {
            assert forall|seed: Double, trials: Seq<Trial>| #[trigger]
                old(self).follows(seed, trials) implies self.follows(
                seed,
                trials.push(trial),
            ) by {
                assert(trials.push(trial).drop_last() =~= trials);
            }
        }
        TiltedStep { step: self.step, accepted, improved, counts }
    }

    /// The rejected trials at the end of the walk, which no record accounts
    /// for.
    pub fn finish(&self) -> (r: SelfLoopCounts)
        ensures
            r.shifted(
                counts::no_loops(),
                SelfLoopReason::TiltedRejection,
                self.here().waiting as int,
            ),
    {
        let mut counts: SelfLoopCounts = SelfLoopCounts::default();
        counts.inc_by(SelfLoopReason::TiltedRejection, self.waiting);
        counts
    }
}

/// The chance of a proposal that loses nothing is one, and it is the same
/// whichever way scores are read.
pub proof fn equal_scores_are_always_accepted<F: Fn(Op, Double, Double) -> Double>(
    rule: LinearAcceptance,
    numbers: Arithmetic<F>,
    current: Double,
    maximize: bool,
)
    requires
        numbers.orderly(),
        current.finite(),
        rule.beta.finite(),
        double::zero().below(rule.beta),
    ensures
        rule.chance(numbers, current, current, maximize) == double::one(),
{
    numbers.ordered_results(current, current, current);
    numbers.ordered_results(rule.beta, rule.beta, rule.beta);
    numbers.ordered_results(double::one(), double::one(), double::one());
}

/// A loss for one who maximizes is a gain for one who does not.
pub proof fn losses_are_gains_the_other_way<F: Fn(Op, Double, Double) -> Double>(
    rule: LinearAcceptance,
    numbers: Arithmetic<F>,
    current: Double,
    proposed: Double,
)
    ensures
        rule.chance(numbers, current, proposed, true) == rule.chance(
            numbers,
            proposed,
            current,
            false,
        ),
        loss_of(numbers, current, proposed, true) == numbers.difference(current, proposed),
{
}

/// A proposal is accepted with one minus `beta` times what it loses as its
/// probability, as long as that is no less than zero; the probability is never
/// below zero nor, for a loss, above one, and a greater loss makes it no greater.
pub proof fn chance_falls_with_the_loss<F: Fn(Op, Double, Double) -> Double>(
    rule: LinearAcceptance,
    numbers: Arithmetic<F>,
    current: Double,
    proposed: Double,
    worse: Double,
)
    requires
        numbers.orderly(),
        current.finite(),
        proposed.finite(),
        worse.finite(),
        worse.at_most(proposed),
        proposed.at_most(current),
        rule.beta.finite(),
        double::zero().below(rule.beta),
        numbers.difference(current, worse).finite(),
        numbers.product(rule.beta, numbers.difference(current, worse)).finite(),
    ensures
        ({
            let chance = rule.chance(numbers, current, proposed, true);
            let rest = numbers.difference(
                double::one(),
                numbers.product(rule.beta, numbers.difference(current, proposed)),
            );
            &&& double::zero().at_most(chance)
            &&& chance.at_most(double::one())
            &&& double::zero().at_most(rest) ==> chance.same_number(rest)
            &&& rest.at_most(double::zero()) ==> chance == double::zero()
            &&& rule.chance(numbers, current, worse, true).at_most(chance)
        }),
{
    numbers.ordered_results(current, worse, proposed);
    numbers.ordered_results(current, proposed, current);
    let loss = numbers.difference(current, proposed);
    let more = numbers.difference(current, worse);
    assert(numbers.difference(current, current) == double::zero()) by {
        numbers.ordered_results(current, current, current);
    }
    assert(loss.finite());
    numbers.ordered_results(rule.beta, double::zero(), loss);
    numbers.ordered_results(rule.beta, loss, more);
    numbers.ordered_results(rule.beta, rule.beta, rule.beta);
    let scaled = numbers.product(rule.beta, loss);
    let larger = numbers.product(rule.beta, more);
    assert(scaled.finite());
    numbers.ordered_results(double::one(), double::zero(), scaled);
    numbers.ordered_results(double::one(), scaled, larger);
    numbers.ordered_results(double::one(), double::one(), double::one());
}

/// A linear rule accepts in proportion: where the chance is `k` of the two to
/// the power of 53 parts of the unit, `2048 * k` of all bit patterns accept.
pub proof fn linear_rules_accept_in_proportion<F: Fn(Op, Double, Double) -> Double>(
    rule: LinearAcceptance,
    numbers: Arithmetic<F>,
    current: Double,
    proposed: Double,
    maximize: bool,
    bits: u64,
    k: int,
)
    requires
        numbers.divides_the_unit(),
        0 <= k <= double::WHOLE,
        rule.chance(numbers, current, proposed, maximize) == numbers.product(
            double::unit_scale(),
            numbers.integer(k),
        ),
    ensures
        numbers.unit_of(bits).below(rule.chance(numbers, current, proposed, maximize)) <==> bits
            < 2048 * k,
{
    numbers.units_are_even(bits, k);
}

/// A walk stands at the score of its last accepted trial, or of its seed, and
/// none of the accepted trials, nor the seed, is better than its best score,
/// which is one of theirs. A seed without a score has no best.
pub proof fn walks_keep_their_last_and_best_score(
    seed: Double,
    trials: Seq<Trial>,
    count: int,
    maximize: bool,
)
    requires
        !seed.nan(),
        0 < count <= trials.len(),
        taken(
            standing_after(seed, trials.take(count - 1), maximize).score,
            trials[count - 1],
            maximize,
        ),
    ensures
        standing_after(seed, trials.take(count), maximize).score == trials[count - 1].score,
        !short_bursts::better(
            trials[count - 1].score,
            standing_after(seed, trials, maximize).best,
            maximize,
        ),
        !short_bursts::better(seed, standing_after(seed, trials, maximize).best, maximize),
        (forall|i: int|
            count <= i < trials.len() ==> !(#[trigger] taken(
                standing_after(seed, trials.take(i), maximize).score,
                trials[i],
                maximize,
            ))) ==> standing_after(seed, trials, maximize).score == trials[count - 1].score,
    decreases trials.len(),
{
    assert(trials.take(count).drop_last() =~= trials.take(count - 1));
    assert(trials.take(count).last() == trials[count - 1]);
    best_score_stays_a_number(seed, trials, maximize);
    if count == trials.len() {
        assert(trials.take(count) =~= trials);
        the_best_score_is_never_lost(seed, trials, 0, maximize);
        best_score_stays_a_number(seed, trials.drop_last(), maximize);
    } else {
        let init = trials.drop_last();
        assert(init.take(count) =~= trials.take(count));
        assert(init.take(count - 1) =~= trials.take(count - 1));
        walks_keep_their_last_and_best_score(seed, init, count, maximize);
        best_score_stays_a_number(seed, init, maximize);
        let last = trials.len() - 1;
        assert(trials.take(last) =~= init);
        assert(trials[last] == trials.last());
        if forall|i: int|
            count <= i < trials.len() ==> !(#[trigger] taken(
                standing_after(seed, trials.take(i), maximize).score,
                trials[i],
                maximize,
            )) {
            assert forall|i: int| count <= i < init.len() implies !(#[trigger] taken(
                standing_after(seed, init.take(i), maximize).score,
                init[i],
                maximize,
            )) by {
                assert(init.take(i) =~= trials.take(i));
                assert(!taken(
                    standing_after(seed, trials.take(i), maximize).score,
                    trials[i],
                    maximize,
                ));
            }
            assert(!taken(
                standing_after(seed, trials.take(last), maximize).score,
                trials[last],
                maximize,
            ));
        }
    }
}

proof fn best_score_stays_a_number(seed: Double, trials: Seq<Trial>, maximize: bool)
    requires
        !seed.nan(),
    ensures
        !standing_after(seed, trials, maximize).best.nan(),
    decreases trials.len(),
{
    if trials.len() > 0 {
        best_score_stays_a_number(seed, trials.drop_last(), maximize);
    }
}

/// A better proposal is accepted whatever chance says, and one that is no better
/// as chance says.
pub proof fn better_trials_are_always_taken(score: Double, trial: Trial, maximize: bool)
    ensures
        short_bursts::better(trial.score, score, maximize) ==> taken(score, trial, maximize),
        !short_bursts::better(trial.score, score, maximize) ==> taken(score, trial, maximize)
            == trial.chance,
{
}

} // verus!
