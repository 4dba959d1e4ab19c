//! Districts that a party wins over a set of elections, with the closest lost
//! district as a tiebreaker.

use vstd::prelude::*;
use crate::double;
use crate::double::{Arithmetic, Double, Op};
use crate::graph::Graph;
use crate::objectives::aggregation::Aggregation;
use crate::objectives::incremental::IncrementalObjective;
use crate::objectives::{counts, tally};
use crate::partition::{Partition, Plan};
use crate::recom::proposal::{RecomProposal, Redraw};
use crate::stats::sums;
use crate::{constraints, vectors};

verus! {

/// Counts the districts that the target party wins in each election. The
/// closest lost district adds a fraction, and the elections are aggregated.
pub struct ElectionWins<F> {
    /// The vote columns of party a and of party b for each election.
    pub elections: Vec<(String, String)>,
    /// Whether party a is the target party.
    pub target_a: bool,
    pub aggregation: Aggregation,
    pub arithmetic: Arithmetic<F>,
}

/// What is kept about one election.
#[derive(Debug)]
pub struct ElectionTally {
    pub target_votes: Vec<i64>,
    pub other_votes: Vec<i64>,
    pub wins: usize,
    pub best_losing_dist: Option<usize>,
    pub best_losing_tiebreak: Double,
    pub score: Double,
}

/// What is kept about the districts, election by election.
#[derive(Debug)]
pub struct ElectionWinsState {
    pub elections: Vec<ElectionTally>,
    pub score: Double,
}

/// Whether a district without a winner is passed over: no votes were cast.
pub open spec fn skipped<F: Fn(Op, Double, Double) -> Double>(
    numbers: Arithmetic<F>,
    target: int,
    other: int,
) -> bool {
    numbers.sum(numbers.integer(target), numbers.integer(other)).same_number(double::zero())
}

/// Whether the target party wins a district.
pub open spec fn wins_district<F: Fn(Op, Double, Double) -> Double>(
    numbers: Arithmetic<F>,
    target: int,
    other: int,
) -> bool {
    !skipped(numbers, target, other) && target > other
}

/// How close a lost district was: twice the target party's share of the votes.
/// A tie is lost by the smallest margin below one.
pub open spec fn tiebreak<F: Fn(Op, Double, Double) -> Double>(
    numbers: Arithmetic<F>,
    target: int,
    other: int,
) -> Option<Double> {
    if skipped(numbers, target, other) || target > other {
        None
    } else if target == other {
        Some(double::one_below())
    } else {
        Some(
            numbers.quotient(
                numbers.quotient(
                    numbers.integer(target),
                    numbers.sum(numbers.integer(target), numbers.integer(other)),
                ),
                double::half(),
            ),
        )
    }
}

/// The districts that the target party wins.
pub open spec fn won<F: Fn(Op, Double, Double) -> Double>(
    numbers: Arithmetic<F>,
    target: Seq<int>,
    other: Seq<int>,
) -> Seq<bool> {
    Seq::new(target.len(), |d: int| wins_district(numbers, target[d], other[d]))
}

/// How close each lost district was.
pub open spec fn tiebreaks<F: Fn(Op, Double, Double) -> Double>(
    numbers: Arithmetic<F>,
    target: Seq<int>,
    other: Seq<int>,
) -> Seq<Option<Double>> {
    Seq::new(target.len(), |d: int| tiebreak(numbers, target[d], other[d]))
}

/// Whether `best` is the largest of the tiebreaks that are at least zero, or
/// zero; `dist` names a district that has it.
pub open spec fn best_losing(
    tiebreaks: Seq<Option<Double>>,
    dist: Option<usize>,
    best: Double,
) -> bool {
    &&& best == double::zero() || double::zero().below(best)
    &&& forall|e: int|
        #![trigger tiebreaks[e]]
        0 <= e < tiebreaks.len() ==> match tiebreaks[e] {
            Some(tb) => !best.below(tb),
            None => true,
        }
    &&& match dist {
        Some(d) => d < tiebreaks.len() && (tiebreaks[d as int] matches Some(tb)
            && tb.same_number(best)),
        None => best == double::zero(),
    }
}

/// One number is the largest tiebreak.
pub proof fn best_losing_is_unique(
    tiebreaks: Seq<Option<Double>>,
    d1: Option<usize>,
    best1: Double,
    d2: Option<usize>,
    best2: Double,
)
    requires
        best_losing(tiebreaks, d1, best1),
        best_losing(tiebreaks, d2, best2),
    ensures
        best1 == best2,
{
    if let Some(x) = d1 {
        assert(tiebreaks[x as int] is Some);
    }
    if let Some(y) = d2 {
        assert(tiebreaks[y as int] is Some);
    }
}

/// The score of an election with a number of wins and a closest loss: their
/// sum. Where a loss that counts less than one rounds the sum up to the next
/// number of wins, the score is the largest double below that number.
pub open spec fn election_score<F: Fn(Op, Double, Double) -> Double>(
    numbers: Arithmetic<F>,
    wins: int,
    best: Double,
) -> Double {
    let score = numbers.sum(numbers.integer(wins), best);
    let next = numbers.integer(wins + 1);
    if best.below(double::one()) && double::zero().below(next) && next.at_most(score) {
        next.just_below()
    } else {
        score
    }
}

/// A loss that counts less than one, such as a tie, keeps the score of an
/// election strictly below the next number of wins.
pub proof fn loss_scores_below_next_win<F: Fn(Op, Double, Double) -> Double>(
    numbers: Arithmetic<F>,
    wins: int,
    best: Double,
)
    requires
        best.below(double::one()),
        double::zero().below(numbers.integer(wins + 1)),
        !numbers.sum(numbers.integer(wins), best).nan(),
    ensures
        election_score(numbers, wins, best).below(numbers.integer(wins + 1)),
{
}

fn score_election<F: Fn(Op, Double, Double) -> Double>(
    numbers: &Arithmetic<F>,
    wins: usize,
    best: Double,
) -> (r: Double)
    requires
        numbers.valid(),
        wins <= u32::MAX,
    ensures
        r == election_score(*numbers, wins as int, best),
{
    let score: Double = numbers.plus(numbers.of_int(wins as i64), best);
    let next: Double = numbers.of_int(wins as i64 + 1);
    if best.lt(double::one()) && double::zero().lt(next) && next.le(score) {
        Double { bits: next.bits - 1 }
    } else {
        score
    }
}

/// Whether a number is the score of an election with the given votes.
pub open spec fn is_election_score<F: Fn(Op, Double, Double) -> Double>(
    numbers: Arithmetic<F>,
    target: Seq<int>,
    other: Seq<int>,
    score: Double,
) -> bool {
    exists|dist: Option<usize>, best: Double| #[trigger]
        best_losing(tiebreaks(numbers, target, other), dist, best) && score == election_score(
            numbers,
            tally::marked(won(numbers, target, other)),
            best,
        )
}

/// Whether a number is the aggregate of elections with the given votes.
pub open spec fn is_score<F: Fn(Op, Double, Double) -> Double>(
    numbers: Arithmetic<F>,
    aggregation: Aggregation,
    target: Seq<Seq<int>>,
    other: Seq<Seq<int>>,
    score: Double,
) -> bool {
    exists|scores: Seq<Double>|
        {
            &&& scores.len() == target.len()
            &&& forall|e: int|
                0 <= e < scores.len() ==> is_election_score(
                    numbers,
                    target[e],
                    other[e],
                    #[trigger] scores[e],
                )
            &&& score == #[trigger] aggregation.of(numbers, scores)
        }
}

/// One number is the aggregate of elections with given votes.
pub proof fn score_is_unique<F: Fn(Op, Double, Double) -> Double>(
    numbers: Arithmetic<F>,
    aggregation: Aggregation,
    target: Seq<Seq<int>>,
    other: Seq<Seq<int>>,
    x: Double,
    y: Double,
)
    requires
        is_score(numbers, aggregation, target, other, x),
        is_score(numbers, aggregation, target, other, y),
    ensures
        x == y,
{
    let a = choose|scores: Seq<Double>|
        {
            &&& scores.len() == target.len()
            &&& forall|e: int|
                0 <= e < scores.len() ==> is_election_score(
                    numbers,
                    target[e],
                    other[e],
                    #[trigger] scores[e],
                )
            &&& x == #[trigger] aggregation.of(numbers, scores)
        };
    let b = choose|scores: Seq<Double>|
        {
            &&& scores.len() == target.len()
            &&& forall|e: int|
                0 <= e < scores.len() ==> is_election_score(
                    numbers,
                    target[e],
                    other[e],
                    #[trigger] scores[e],
                )
            &&& y == #[trigger] aggregation.of(numbers, scores)
        };
    assert forall|e: int| 0 <= e < a.len() implies a[e] == b[e] by {
        let ties = tiebreaks(numbers, target[e], other[e]);
        let won_marks = tally::marked(won(numbers, target[e], other[e]));
        assert(is_election_score(numbers, target[e], other[e], a[e]));
        assert(is_election_score(numbers, target[e], other[e], b[e]));
        let (d1, best1) = choose|dist: Option<usize>, best: Double| #[trigger]
            best_losing(ties, dist, best) && a[e] == election_score(numbers, won_marks, best);
        let (d2, best2) = choose|dist: Option<usize>, best: Double| #[trigger]
            best_losing(ties, dist, best) && b[e] == election_score(numbers, won_marks, best);
        best_losing_is_unique(ties, d1, best1, d2, best2);
    }
    assert(a =~= b);
}

impl ElectionTally {
    /// The counts follow from the votes.
    pub open spec fn settled<F: Fn(Op, Double, Double) -> Double>(
        &self,
        numbers: Arithmetic<F>,
    ) -> bool {
        let target = counts::ints(self.target_votes@);
        let other = counts::ints(self.other_votes@);
        &&& self.target_votes.len() == self.other_votes.len()
        &&& self.target_votes.len() <= u32::MAX
        &&& self.wins == tally::marked(won(numbers, target, other))
        &&& best_losing(
            tiebreaks(numbers, target, other),
            self.best_losing_dist,
            self.best_losing_tiebreak,
        )
        &&& self.score == election_score(numbers, self.wins as int, self.best_losing_tiebreak)
    }
}

/// What a district's votes come to: whether it is won, and how close it was if
/// it is lost.
pub fn election_district_outcome<F: Fn(Op, Double, Double) -> Double>(
    numbers: &Arithmetic<F>,
    target: i64,
    other: i64,
) -> (r: (bool, Option<Double>))
    requires
        numbers.valid(),
    ensures
        r.0 == wins_district(*numbers, target as int, other as int),
        r.1 == tiebreak(*numbers, target as int, other as int),
{
    let total: Double = numbers.plus(numbers.of_int(target), numbers.of_int(other));
    if total.equals(double::zero()) {
        return (false, None);
    }
    if target > other {
        (true, None)
    } else if target == other {
        (false, Some(double::one_below()))
    } else {
        (
            false,
            Some(numbers.over(numbers.over(numbers.of_int(target), total), double::half())),
        )
    }
}

/// The largest tiebreak among the districts that a scan looks at.
spec fn leads_among(
    tiebreaks: Seq<Option<Double>>,
    dist: Option<usize>,
    best: Double,
    among: spec_fn(int) -> bool,
) -> bool {
    &&& best == double::zero() || double::zero().below(best)
    &&& forall|e: int|
        #![trigger tiebreaks[e]]
        0 <= e < tiebreaks.len() && among(e) ==> match tiebreaks[e] {
            Some(tb) => !best.below(tb),
            None => true,
        }
    &&& match dist {
        Some(d) => d < tiebreaks.len() && (tiebreaks[d as int] matches Some(tb)
            && tb.same_number(best)),
        None => best == double::zero(),
    }
}

/// Whether a scan looks at a district.
spec fn kept(skip: Option<(usize, usize)>, e: int) -> bool {
    match skip {
        Some((a, b)) => e != a && e != b,
        None => true,
    }
}

/// Scans the districts, but for two, for the closest lost one.
fn scan_best_losing_tiebreak<F: Fn(Op, Double, Double) -> Double>(
    numbers: &Arithmetic<F>,
    target_votes: &Vec<i64>,
    other_votes: &Vec<i64>,
    skip: Option<(usize, usize)>,
) -> (r: (Option<usize>, Double))
    requires
        numbers.valid(),
        target_votes.len() == other_votes.len(),
    ensures
        leads_among(
            tiebreaks(*numbers, counts::ints(target_votes@), counts::ints(other_votes@)),
            r.0,
            r.1,
            |e: int| kept(skip, e),
        ),
        r.0 matches Some(d) ==> kept(skip, d as int),
{
    let ghost tbs = tiebreaks(*numbers, counts::ints(target_votes@), counts::ints(other_votes@));
    let mut best: Double = double::zero();
    let mut dist: Option<usize> = None;
    let mut d: usize = 0;
    while d < target_votes.len()
        invariant
            d <= target_votes.len(),
            numbers.valid(),
            target_votes.len() == other_votes.len(),
            tbs == tiebreaks(*numbers, counts::ints(target_votes@), counts::ints(other_votes@)),
            leads_among(tbs, dist, best, |e: int| e < d && kept(skip, e)),
            dist matches Some(h) ==> kept(skip, h as int),
        decreases target_votes.len() - d,
    {
        let skipped: bool = match skip {
            Some((a, b)) => d == a || d == b,
            None => false,
        };
        if !skipped {
            let (_, tb): (bool, Option<Double>) = election_district_outcome(
                numbers,
                target_votes[d],
                other_votes[d],
            );
            assert(tb == tbs[d as int]);
            if let Some(tb) = tb {
                if tb.gt(best) {
                    best = tb;
                    dist = Some(d);
                }
            }
        }
        d += 1;
    }
    (dist, best)
}

/// Counts the districts that the target party wins.
fn count_wins<F: Fn(Op, Double, Double) -> Double>(
    numbers: &Arithmetic<F>,
    target_votes: &Vec<i64>,
    other_votes: &Vec<i64>,
) -> (r: usize)
    requires
        numbers.valid(),
        target_votes.len() == other_votes.len(),
    ensures
        r == tally::marked(won(*numbers, counts::ints(target_votes@), counts::ints(other_votes@))),
        r <= target_votes.len(),
{
    let ghost marks = won(*numbers, counts::ints(target_votes@), counts::ints(other_votes@));
    let mut count: usize = 0;
    let mut d: usize = 0;
    while d < target_votes.len()
        invariant
            d <= target_votes.len(),
            numbers.valid(),
            target_votes.len() == other_votes.len(),
            marks == won(*numbers, counts::ints(target_votes@), counts::ints(other_votes@)),
            count == tally::tally(marks, d as int),
            count <= d,
        decreases target_votes.len() - d,
    {
        let (win, _): (bool, Option<Double>) = election_district_outcome(
            numbers,
            target_votes[d],
            other_votes[d],
        );
        if win {
            count += 1;
        }
        d += 1;
    }
    count
}

/// Tallies an election from the votes of each district.
fn tally_votes<F: Fn(Op, Double, Double) -> Double>(
    numbers: &Arithmetic<F>,
    target_votes: Vec<i64>,
    other_votes: Vec<i64>,
) -> (r: ElectionTally)
    requires
        numbers.valid(),
        target_votes.len() == other_votes.len(),
        target_votes.len() <= u32::MAX,
    ensures
        r.settled(*numbers),
        r.target_votes@ == target_votes@,
        r.other_votes@ == other_votes@,
{
    let wins: usize = count_wins(numbers, &target_votes, &other_votes);
    let (best_losing_dist, best_losing_tiebreak): (Option<usize>, Double) =
        scan_best_losing_tiebreak(numbers, &target_votes, &other_votes, None);
    let score: Double = score_election(numbers, wins, best_losing_tiebreak);
    ElectionTally {
        target_votes,
        other_votes,
        wins,
        best_losing_dist,
        best_losing_tiebreak,
        score,
    }
}

/// What the redrawn districts' votes lead to: the number of wins and the
/// closest lost district. The known closest one stands unless it belongs to
/// one of the two districts, and then the others are scanned.
fn election_single_update<F: Fn(Op, Double, Double) -> Double>(
    numbers: &Arithmetic<F>,
    state: &ElectionTally,
    a: usize,
    b: usize,
    new_a: (i64, i64),
    new_b: (i64, i64),
) -> (r: (usize, Option<usize>, Double))
    requires
        numbers.valid(),
        state.settled(*numbers),
        a < state.target_votes.len(),
        b < state.target_votes.len(),
        a != b,
    ensures
        ({
            let target = counts::ints(state.target_votes@).update(a as int, new_a.0 as int).update(
                b as int,
                new_b.0 as int,
            );
            let other = counts::ints(state.other_votes@).update(a as int, new_a.1 as int).update(
                b as int,
                new_b.1 as int,
            );
            &&& r.0 == tally::marked(won(*numbers, target, other))
            &&& r.0 <= state.target_votes.len()
            &&& best_losing(tiebreaks(*numbers, target, other), r.1, r.2)
        }),
{
    let ghost target = counts::ints(state.target_votes@);
    let ghost other = counts::ints(state.other_votes@);
    let ghost new_target = target.update(a as int, new_a.0 as int).update(b as int, new_b.0 as int);
    let ghost new_other = other.update(a as int, new_a.1 as int).update(b as int, new_b.1 as int);
    let ghost before = tiebreaks(*numbers, target, other);
    let ghost after = tiebreaks(*numbers, new_target, new_other);
    let (old_a_win, _): (bool, Option<Double>) = election_district_outcome(
        numbers,
        state.target_votes[a],
        state.other_votes[a],
    );
    let (old_b_win, _): (bool, Option<Double>) = election_district_outcome(
        numbers,
        state.target_votes[b],
        state.other_votes[b],
    );
    let (new_a_win, new_a_tb): (bool, Option<Double>) = election_district_outcome(
        numbers,
        new_a.0,
        new_a.1,
    );
    let (new_b_win, new_b_tb): (bool, Option<Double>) = election_district_outcome(
        numbers,
        new_b.0,
        new_b.1,
    );
    proof {
        let marks = won(*numbers, target, other);
        tally::marked_with_two_changed(marks, a as int, new_a_win, b as int, new_b_win);
        assert(won(*numbers, new_target, new_other) =~= marks.update(a as int, new_a_win).update(
            b as int,
            new_b_win,
        ));
        assert(after =~= before.update(a as int, new_a_tb).update(b as int, new_b_tb));
    }
    let mut wins: usize = state.wins;
    if old_a_win {
        wins -= 1;
    }
    if old_b_win {
        wins -= 1;
    }
    if new_a_win {
        wins += 1;
    }
    if new_b_win {
        wins += 1;
    }
    let unchanged: bool = match state.best_losing_dist {
        Some(holder) => holder != a && holder != b,
        None => false,
    };
    let mut dist: Option<usize> = state.best_losing_dist;
    let mut best: Double = state.best_losing_tiebreak;
    if !unchanged {
        let (d, tb): (Option<usize>, Double) = scan_best_losing_tiebreak(
            numbers,
            &state.target_votes,
            &state.other_votes,
            Some((a, b)),
        );
        dist = d;
        best = tb;
    }
    let ghost others = |e: int| e != a && e != b;
    proof {
        let skip = Some((a, b));
        let scanned = |e: int| kept(skip, e);
        assert(forall|e: int| #[trigger] scanned(e) == others(e));
        assert forall|e: int|
            #![trigger after[e]]
            0 <= e < after.len() && others(e) implies match after[e] {
            Some(tb) => !best.below(tb),
            None => true,
        } by {
            assert(after[e] == before[e]);
            assert(scanned(e));
        }
        assert(leads_among(after, dist, best, others));
    }
    if let Some(tb) = new_a_tb {
        if tb.gt(best) {
            best = tb;
            dist = Some(a);
        } else if dist.is_none() && tb.ge(best) {
            dist = Some(a);
        }
    }
    if let Some(tb) = new_b_tb {
        if tb.gt(best) {
            best = tb;
            dist = Some(b);
        } else if dist.is_none() && tb.ge(best) {
            dist = Some(b);
        }
    }
    (wins, dist, best)
}

/// The tally after the votes of two districts changed.
fn updated_tally<F: Fn(Op, Double, Double) -> Double>(
    numbers: &Arithmetic<F>,
    state: &ElectionTally,
    a: usize,
    b: usize,
    new_a: (i64, i64),
    new_b: (i64, i64),
) -> (r: ElectionTally)
    requires
        numbers.valid(),
        state.settled(*numbers),
        a < state.target_votes.len(),
        b < state.target_votes.len(),
        a != b,
    ensures
        r.settled(*numbers),
        counts::ints(r.target_votes@) == counts::ints(state.target_votes@).update(
            a as int,
            new_a.0 as int,
        ).update(b as int, new_b.0 as int),
        counts::ints(r.other_votes@) == counts::ints(state.other_votes@).update(
            a as int,
            new_a.1 as int,
        ).update(b as int, new_b.1 as int),
{
    let (wins, dist, best): (usize, Option<usize>, Double) = election_single_update(
        numbers,
        state,
        a,
        b,
        new_a,
        new_b,
    );
    let mut target_votes: Vec<i64> = vectors::copied(&state.target_votes);
    let mut other_votes: Vec<i64> = vectors::copied(&state.other_votes);
    target_votes.set(a, new_a.0);
    target_votes.set(b, new_b.0);
    other_votes.set(a, new_a.1);
    other_votes.set(b, new_b.1);
    assert(counts::ints(target_votes@) =~= counts::ints(state.target_votes@).update(
        a as int,
        new_a.0 as int,
    ).update(b as int, new_b.0 as int));
    assert(counts::ints(other_votes@) =~= counts::ints(state.other_votes@).update(
        a as int,
        new_a.1 as int,
    ).update(b as int, new_b.1 as int));
    let score: Double = score_election(numbers, wins, best);
    ElectionTally {
        target_votes,
        other_votes,
        wins,
        best_losing_dist: dist,
        best_losing_tiebreak: best,
        score,
    }
}

/// The scores of the elections.
pub open spec fn scores_of(elections: Seq<ElectionTally>) -> Seq<Double> {
    Seq::new(elections.len(), |e: int| elections[e].score)
}

fn election_scores(elections: &Vec<ElectionTally>) -> (r: Vec<Double>)
    ensures
        r@ == scores_of(elections@),
{
    let mut r: Vec<Double> = Vec::new();
    let mut e: usize = 0;
    while e < elections.len()
        invariant
            e <= elections.len(),
            r.len() == e,
            forall|i: int| 0 <= i < e ==> #[trigger] r[i] == elections[i].score,
        decreases elections.len() - e,
    {
        r.push(elections[e].score);
        e += 1;
    }
    assert(r@ =~= scores_of(elections@));
    r
}

impl<F: Fn(Op, Double, Double) -> Double> ElectionWins<F> {
    /// The column of the target party's votes in an election.
    pub open spec fn target_col(&self, e: int) -> Seq<char> {
        if self.target_a {
            self.elections[e].0@
        } else {
            self.elections[e].1@
        }
    }

    /// The column of the other party's votes in an election.
    pub open spec fn other_col(&self, e: int) -> Seq<char> {
        if self.target_a {
            self.elections[e].1@
        } else {
            self.elections[e].0@
        }
    }

    /// The target party's votes of each district in each election.
    pub open spec fn target_votes(&self, graph: &Graph, plan: Plan) -> Seq<Seq<int>> {
        Seq::new(
            self.elections@.len(),
            |e: int| counts::totals(graph, self.target_col(e), plan),
        )
    }

    /// The other party's votes of each district in each election.
    pub open spec fn other_votes(&self, graph: &Graph, plan: Plan) -> Seq<Seq<int>> {
        Seq::new(
            self.elections@.len(),
            |e: int| counts::totals(graph, self.other_col(e), plan),
        )
    }

    fn target_column(&self, e: usize) -> (r: &String)
        requires
            e < self.elections.len(),
        ensures
            r@ == self.target_col(e as int),
    {
        if self.target_a {
            &self.elections[e].0
        } else {
            &self.elections[e].1
        }
    }

    fn other_column(&self, e: usize) -> (r: &String)
        requires
            e < self.elections.len(),
        ensures
            r@ == self.other_col(e as int),
    {
        if self.target_a {
            &self.elections[e].1
        } else {
            &self.elections[e].0
        }
    }

    /// Scores a plan from scratch.
    pub fn score(&self, graph: &Graph, partition: &Partition) -> (r: Double)
        requires
            graph.sound(),
            partition@.valid(),
            partition@.assignments.len() == graph.order(),
            self.measures(graph, partition@),
        ensures
            is_score(
                self.arithmetic,
                self.aggregation,
                self.target_votes(graph, partition@),
                self.other_votes(graph, partition@),
                r,
            ),
    {
        self.init(graph, partition).score
    }

    /// The state that applying a proposal leads to.
    fn next_state(
        &self,
        graph: &Graph,
        state: &ElectionWinsState,
        proposal: &RecomProposal,
    ) -> (r: ElectionWinsState)
        requires
            graph.sound(),
            self.prepared(graph),
            self.suits(*state),
            self.accepts(graph, *state, proposal@),
        ensures
            self.applied(graph, *state, proposal@, r),
    {
        let a: usize = proposal.a_label;
        let b: usize = proposal.b_label;
        let mut elections: Vec<ElectionTally> = Vec::new();
        let mut e: usize = 0;
        while e < self.elections.len()
            invariant
                e <= self.elections.len(),
                elections.len() == e,
                a == proposal.a_label,
                b == proposal.b_label,
                graph.sound(),
                self.prepared(graph),
                self.suits(*state),
                self.accepts(graph, *state, proposal@),
                forall|i: int|
                    0 <= i < e ==> self.election_applied(
                        graph,
                        state.elections[i],
                        proposal@,
                        #[trigger] elections[i],
                        i,
                    ),
            decreases self.elections.len() - e,
        {
            let target: &String = self.target_column(e);
            let other: &String = self.other_column(e);
            assert(counts::cached(graph, self.target_col(e as int)));
            assert(counts::cached(graph, self.other_col(e as int)));
            let new_a: (i64, i64) = (
                counts::sum_attr_over(graph, target.as_str(), &proposal.a_nodes),
                counts::sum_attr_over(graph, other.as_str(), &proposal.a_nodes),
            );
            let new_b: (i64, i64) = (
                counts::sum_attr_over(graph, target.as_str(), &proposal.b_nodes),
                counts::sum_attr_over(graph, other.as_str(), &proposal.b_nodes),
            );
            assert(state.elections[e as int].settled(self.arithmetic));
            elections.push(
                updated_tally(&self.arithmetic, &state.elections[e], a, b, new_a, new_b),
            );
            e += 1;
        }
        let scores: Vec<Double> = election_scores(&elections);
        let score: Double = self.aggregation.apply(&self.arithmetic, &scores);
        ElectionWinsState { elections, score }
    }

    /// Whether applying a proposal takes one election's tally to another.
    pub open spec fn election_applied(
        &self,
        graph: &Graph,
        before: ElectionTally,
        p: Redraw,
        after: ElectionTally,
        e: int,
    ) -> bool {
        &&& counts::ints(after.target_votes@) == counts::ints(before.target_votes@).update(
            p.a_label as int,
            counts::total(graph, self.target_col(e), p.a_nodes),
        ).update(p.b_label as int, counts::total(graph, self.target_col(e), p.b_nodes))
        &&& counts::ints(after.other_votes@) == counts::ints(before.other_votes@).update(
            p.a_label as int,
            counts::total(graph, self.other_col(e), p.a_nodes),
        ).update(p.b_label as int, counts::total(graph, self.other_col(e), p.b_nodes))
        &&& after.settled(self.arithmetic)
    }
}

impl<F: Fn(Op, Double, Double) -> Double> IncrementalObjective for ElectionWins<F> {
    type State = ElectionWinsState;

    open spec fn measures(&self, graph: &Graph, plan: Plan) -> bool {
        &&& self.arithmetic.valid()
        &&& self.elections.len() <= i64::MAX
        &&& forall|e: int|
            0 <= e < self.elections.len() ==> counts::readable(
                graph,
                (#[trigger] self.elections[e]).0@,
            ) && counts::readable(graph, self.elections[e].1@)
    }

    open spec fn prepared(&self, graph: &Graph) -> bool {
        &&& self.arithmetic.valid()
        &&& self.elections.len() <= i64::MAX
        &&& forall|e: int|
            0 <= e < self.elections.len() ==> counts::cached(
                graph,
                (#[trigger] self.elections[e]).0@,
            ) && counts::cached(graph, self.elections[e].1@)
    }

    open spec fn tracks(&self, graph: &Graph, plan: Plan, state: ElectionWinsState) -> bool {
        &&& self.suits(state)
        &&& forall|e: int|
            0 <= e < self.elections.len() ==> {
                &&& counts::ints((#[trigger] state.elections[e]).target_votes@) == counts::totals(
                    graph,
                    self.target_col(e),
                    plan,
                )
                &&& counts::ints(state.elections[e].other_votes@) == counts::totals(
                    graph,
                    self.other_col(e),
                    plan,
                )
            }
    }

    open spec fn fresh(&self, graph: &Graph, plan: Plan, state: ElectionWinsState) -> bool {
        self.tracks(graph, plan, state)
    }

    open spec fn rates(&self, graph: &Graph, plan: Plan, score: Double) -> bool {
        is_score(
            self.arithmetic,
            self.aggregation,
            self.target_votes(graph, plan),
            self.other_votes(graph, plan),
            score,
        )
    }

    open spec fn suits(&self, state: ElectionWinsState) -> bool {
        &&& self.arithmetic.valid()
        &&& state.elections.len() == self.elections.len()
        &&& forall|e: int|
            0 <= e < state.elections.len() ==> (#[trigger] state.elections[e]).settled(
                self.arithmetic,
            )
        &&& state.score == self.aggregation.of(self.arithmetic, scores_of(state.elections@))
    }

    open spec fn accepts(&self, graph: &Graph, state: ElectionWinsState, p: Redraw) -> bool {
        &&& p.a_label != p.b_label
        &&& forall|e: int|
            0 <= e < state.elections.len() ==> p.a_label < (
            #[trigger] state.elections[e]).target_votes.len() && p.b_label
                < state.elections[e].target_votes.len()
        &&& sums::nodes_within(p.a_nodes, graph.order())
        &&& sums::nodes_within(p.b_nodes, graph.order())
    }

    open spec fn applied(
        &self,
        graph: &Graph,
        before: ElectionWinsState,
        p: Redraw,
        after: ElectionWinsState,
    ) -> bool {
        &&& after.elections.len() == before.elections.len()
        &&& forall|e: int|
            0 <= e < after.elections.len() ==> self.election_applied(
                graph,
                before.elections[e],
                p,
                #[trigger] after.elections[e],
                e,
            )
        &&& after.score == self.aggregation.of(self.arithmetic, scores_of(after.elections@))
    }

    open spec fn state_score(&self, state: ElectionWinsState) -> Double {
        state.score
    }

    open spec fn state_district_scores(&self, state: ElectionWinsState) -> Seq<Double> {
        Seq::empty()
    }

    proof fn fresh_state_rates(&self, graph: &Graph, plan: Plan, state: ElectionWinsState) {
        let scores = scores_of(state.elections@);
        assert forall|e: int| 0 <= e < scores.len() implies is_election_score(
            self.arithmetic,
            self.target_votes(graph, plan)[e],
            self.other_votes(graph, plan)[e],
            #[trigger] scores[e],
        ) by {
            let election = state.elections[e];
            assert(election.settled(self.arithmetic));
            assert(best_losing(
                tiebreaks(
                    self.arithmetic,
                    counts::ints(election.target_votes@),
                    counts::ints(election.other_votes@),
                ),
                election.best_losing_dist,
                election.best_losing_tiebreak,
            ));
        }
        assert(state.score == self.aggregation.of(self.arithmetic, scores));
    }

    proof fn applied_state_tracks(
        &self,
        graph: &Graph,
        plan: Plan,
        before: ElectionWinsState,
        p: Redraw,
        after: ElectionWinsState,
    ) {
        assert forall|e: int| 0 <= e < self.elections.len() implies {
            &&& counts::ints((#[trigger] after.elections[e]).target_votes@) == counts::totals(
                graph,
                self.target_col(e),
                plan.redrawn(p),
            )
            &&& counts::ints(after.elections[e].other_votes@) == counts::totals(
                graph,
                self.other_col(e),
                plan.redrawn(p),
            )
            &&& after.elections[e].settled(self.arithmetic)
        } by {
            assert(self.election_applied(graph, before.elections[e], p, after.elections[e], e));
            assert(counts::ints(before.elections[e].target_votes@) == counts::totals(
                graph,
                self.target_col(e),
                plan,
            ));
            counts::redrawn_totals(graph, self.target_col(e), plan, p);
            counts::redrawn_totals(graph, self.other_col(e), plan, p);
        }
    }

    proof fn tracked_state_accepts(
        &self,
        graph: &Graph,
        plan: Plan,
        state: ElectionWinsState,
        p: Redraw,
    ) {
        constraints::redrawn_nodes_are_within(plan, p);
        assert forall|e: int| 0 <= e < state.elections.len() implies p.a_label < (
        #[trigger] state.elections[e]).target_votes.len() && p.b_label
            < state.elections[e].target_votes.len() by {
            assert(counts::ints(state.elections[e].target_votes@).len() == plan.dist_nodes.len());
        }
    }

    proof fn redrawn_is_measured(&self, graph: &Graph, plan: Plan, p: Redraw) {
    }

    fn init(&self, graph: &Graph, partition: &Partition) -> (r: ElectionWinsState) {
        let mut elections: Vec<ElectionTally> = Vec::new();
        let mut e: usize = 0;
        while e < self.elections.len()
            invariant
                e <= self.elections.len(),
                elections.len() == e,
                graph.sound(),
                partition@.valid(),
                partition@.assignments.len() == graph.order(),
                self.measures(graph, partition@),
                forall|i: int|
                    0 <= i < e ==> {
                        &&& (#[trigger] elections[i]).settled(self.arithmetic)
                        &&& counts::ints(elections[i].target_votes@) == counts::totals(
                            graph,
                            self.target_col(i),
                            partition@,
                        )
                        &&& counts::ints(elections[i].other_votes@) == counts::totals(
                            graph,
                            self.other_col(i),
                            partition@,
                        )
                    },
            decreases self.elections.len() - e,
        {
            let target: &String = self.target_column(e);
            let other: &String = self.other_column(e);
            assert(counts::readable(graph, self.elections[e as int].0@));
            let target_votes: Vec<i64> = counts::partition_attr_sums(
                graph,
                partition,
                target.as_str(),
            );
            let other_votes: Vec<i64> = counts::partition_attr_sums(
                graph,
                partition,
                other.as_str(),
            );
            assert(counts::ints(target_votes@).len() == partition@.dist_nodes.len());
            assert(counts::ints(other_votes@).len() == partition@.dist_nodes.len());
            elections.push(tally_votes(&self.arithmetic, target_votes, other_votes));
            e += 1;
        }
        let scores: Vec<Double> = election_scores(&elections);
        let score: Double = self.aggregation.apply(&self.arithmetic, &scores);
        let r: ElectionWinsState = ElectionWinsState { elections, score };
        proof {
            self.fresh_state_rates(graph, partition@, r);
        }
        r
    }

    fn score_state(&self, state: &ElectionWinsState) -> (r: Double) {
        state.score
    }

    fn score_proposal(
        &self,
        graph: &Graph,
        current: &ElectionWinsState,
        proposal: &RecomProposal,
    ) -> (r: Double) {
        let next: ElectionWinsState = self.next_state(graph, current, proposal);
        assert(self.applied(graph, *current, proposal@, next));
        next.score
    }

    fn apply_proposal(
        &self,
        graph: &Graph,
        state: &mut ElectionWinsState,
        proposal: &RecomProposal,
    ) {
        let next: ElectionWinsState = self.next_state(graph, state, proposal);
        *state = next;
    }

    fn district_scores(&self, state: &ElectionWinsState) -> (r: Vec<Double>) {
        Vec::new()
    }
}

/// A lost district counts twice the target party's share of its votes, a tie the
/// largest number below one; a won district and one without votes count nothing.
pub proof fn lost_districts_count_twice_their_share<F: Fn(Op, Double, Double) -> Double>(
    numbers: Arithmetic<F>,
    target: int,
    other: int,
)
    requires
        numbers.counts(),
        numbers.orderly(),
        numbers.doubles(),
        0 <= target,
        0 <= other,
        target + other <= double::WHOLE,
    ensures
        ({
            let share = counts::share_of(numbers, target, target + other);
            &&& target < other ==> tiebreak(numbers, target, other) == Some(
                numbers.sum(share, share),
            )
            &&& target < other ==> double::zero().at_most(numbers.sum(share, share))
                && numbers.sum(share, share).at_most(double::one())
            &&& target == other && target > 0 ==> tiebreak(numbers, target, other) == Some(
                double::one_below(),
            )
            &&& target > other || target + other == 0 ==> tiebreak(numbers, target, other) is None
            &&& wins_district(numbers, target, other) <==> target > other
        }),
{
    numbers.whole_results(target, other);
    numbers.whole_results(0, target + other);
    if target < other {
        numbers.whole_results(0, target);
        numbers.whole_results(target, target + other);
        counts::shares_are_proportions(numbers, target, target, target + other);
        let share = counts::share_of(numbers, target, target + other);
        assert(share.finite());
        if target > 0 {
            assert(numbers.quotient(numbers.integer(target), numbers.integer(2 * target))
                == double::half());
            counts::shares_fall_with_the_whole(numbers, target, 2 * target, target + other);
            assert(share.at_most(double::half()));
        } else {
            assert(share == double::zero());
        }
        numbers.ordered_quotients(share, double::half(), double::half(), double::half());
    }
}

/// The districts in which the target party has more votes.
pub open spec fn ahead(target: Seq<int>, other: Seq<int>) -> Set<int> {
    Set::new(|d: int| 0 <= d < target.len() && target[d] > other[d])
}

/// The score of an election is at least the number of districts in which the
/// target party has more votes, and at most one more.
pub proof fn scores_count_the_won_districts<F: Fn(Op, Double, Double) -> Double>(
    numbers: Arithmetic<F>,
    target: Seq<int>,
    other: Seq<int>,
    score: Double,
)
    requires
        numbers.counts(),
        numbers.orderly(),
        numbers.doubles(),
        target.len() == other.len(),
        target.len() < double::WHOLE,
        forall|d: int|
            0 <= d < target.len() ==> 0 <= #[trigger] target[d] && 0 <= other[d] && target[d]
                + other[d] <= double::WHOLE,
        is_election_score(numbers, target, other, score),
    ensures
        ahead(target, other).finite(),
        numbers.integer(ahead(target, other).len() as int).at_most(score),
        score.at_most(numbers.integer(ahead(target, other).len() as int + 1)),
{
    let marks = won(numbers, target, other);
    let ties = tiebreaks(numbers, target, other);
    tally::marks_are_counted_once(marks);
    assert forall|d: int| 0 <= d < target.len() implies (#[trigger] marks[d] <==> target[d]
        > other[d]) by {
        assert(0 <= target[d]);
        lost_districts_count_twice_their_share(numbers, target[d], other[d]);
    }
    assert(tally::marked_places(marks) =~= ahead(target, other));
    let wins = tally::marked(marks);
    tally::tally_bounds(marks, marks.len() as int);
    let (dist, best) = choose|dist: Option<usize>, best: Double| #[trigger]
        best_losing(ties, dist, best) && score == election_score(numbers, wins, best);
    assert(best.at_most(double::one())) by {
        if let Some(d) = dist {
            assert(ties[d as int] is Some);
            assert(0 <= target[d as int]);
            lost_districts_count_twice_their_share(numbers, target[d as int], other[d as int]);
        }
    }
    numbers.whole_results(wins, wins + 1);
    numbers.whole_results(wins, 0);
    numbers.whole_results(wins, 1);
    numbers.whole_results(0, wins + 1);
    let w = numbers.integer(wins);
    numbers.ordered_results(w, double::zero(), best);
    numbers.ordered_results(w, best, double::one());
}

/// A closer loss scores no less than another one, with as many wins.
pub proof fn closer_losses_score_no_less<F: Fn(Op, Double, Double) -> Double>(
    numbers: Arithmetic<F>,
    wins: int,
    best: Double,
    closer: Double,
)
    requires
        numbers.counts(),
        numbers.orderly(),
        0 <= wins < double::WHOLE,
        double::zero().at_most(best),
        best.at_most(closer),
        closer.below(double::one()),
    ensures
        election_score(numbers, wins, best).at_most(election_score(numbers, wins, closer)),
        election_score(numbers, wins, closer).below(numbers.integer(wins + 1)),
        election_score(numbers, wins, double::zero()) == numbers.integer(wins),
{
    numbers.whole_results(wins, wins + 1);
    numbers.whole_results(wins, 0);
    numbers.whole_results(wins, 1);
    numbers.whole_results(0, wins + 1);
    let w = numbers.integer(wins);
    numbers.ordered_results(w, best, closer);
    numbers.ordered_results(w, closer, double::one());
}

} // verus!
