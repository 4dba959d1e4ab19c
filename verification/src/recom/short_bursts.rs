//! Short bursts: a walk that accepts every proposal and returns, after each
//! burst of steps, to the best plan of the burst.

use vstd::prelude::*;
use crate::double::Double;
use crate::partition::{Partition, Plan};
use crate::recom::proposal::RecomProposal;

verus! {

/// What changed in the walk since a worker's last draw.
#[derive(Debug)]
pub enum BurstDiff {
    Unchanged,
    /// A proposal was accepted.
    Apply(RecomProposal),
    /// The walk went back to a plan.
    Reset(Partition),
}

/// A drawn proposal and the score that applying it leads to.
#[derive(Debug)]
pub struct ScoredProposal {
    /// A random number that orders the proposals of a round.
    pub id: u64,
    pub proposal: RecomProposal,
    pub score: Double,
}

/// A plan of the walk and its score.
pub struct Visit {
    pub plan: Plan,
    pub score: Double,
}

/// Whether one score is better than another.
pub open spec fn better(x: Double, y: Double, maximize: bool) -> bool {
    if maximize {
        y.below(x)
    } else {
        x.below(y)
    }
}

pub fn is_better(x: Double, y: Double, maximize: bool) -> (r: bool)
    ensures
        r == better(x, y, maximize),
{
    if maximize {
        x.gt(y)
    } else {
        x.lt(y)
    }
}

/// The first of the visits with the best score, starting from a given one.
pub open spec fn best_of(start: Visit, visits: Seq<Visit>, maximize: bool) -> Visit
    decreases visits.len(),
{
    if visits.len() == 0 {
        start
    } else {
        let before = best_of(start, visits.drop_last(), maximize);
        if better(visits.last().score, before.score, maximize) {
            visits.last()
        } else {
            before
        }
    }
}

/// The best visit is the starting one or one of the visits, and none of them
/// is better.
pub proof fn best_is_best(start: Visit, visits: Seq<Visit>, maximize: bool)
    ensures
        best_of(start, visits, maximize) == start || visits.contains(
            best_of(start, visits, maximize),
        ),
        !better(start.score, best_of(start, visits, maximize).score, maximize),
        forall|i: int|
            0 <= i < visits.len() ==> !better(
                (#[trigger] visits[i]).score,
                best_of(start, visits, maximize).score,
                maximize,
            ),
    decreases visits.len(),
{
    if visits.len() > 0 {
        let init = visits.drop_last();
        best_is_best(start, init, maximize);
        let before = best_of(start, init, maximize);
        assert(visits.contains(visits.last()));
        if init.contains(before) {
            let i = choose|i: int| 0 <= i < init.len() && init[i] == before;
            assert(visits[i] == before);
        }
        assert forall|i: int| 0 <= i < visits.len() implies !better(
            (#[trigger] visits[i]).score,
            best_of(start, visits, maximize).score,
            maximize,
        ) by {
            if i < init.len() {
                assert(visits[i] == init[i]);
                assert(!better(init[i].score, before.score, maximize));
            }
        }
    }
}

/// Where a walk stands: the plan that the next step starts from, the best plan
/// of the burst, and the number of steps in the burst.
pub struct Standing {
    pub current: Visit,
    pub burst_best: Visit,
    pub in_burst: nat,
}

/// Whether a visit completes a burst that goes back to its best plan.
pub open spec fn goes_back(before: Standing, v: Visit, burst: nat, maximize: bool) -> bool {
    let best = if better(v.score, before.burst_best.score, maximize) {
        v
    } else {
        before.burst_best
    };
    before.in_burst + 1 == burst && better(best.score, v.score, maximize)
}

/// The plans of a walk since it last went back to one, or since its start. The
/// walk stands at the last.
pub open spec fn trail(seed: Visit, visits: Seq<Visit>, burst: nat, maximize: bool) -> Seq<Plan>
    decreases visits.len(),
{
    if visits.len() == 0 {
        seq![seed.plan]
    } else {
        let earlier = visits.drop_last();
        let v = visits.last();
        if goes_back(standing(seed, earlier, burst, maximize), v, burst, maximize) {
            seq![standing(seed, visits, burst, maximize).current.plan]
        } else {
            trail(seed, earlier, burst, maximize).push(v.plan)
        }
    }
}

/// Where a walk stands after its visits. A burst that is complete goes back to
/// its best plan, unless its last plan is as good, and the next burst starts
/// there.
pub open spec fn standing(seed: Visit, visits: Seq<Visit>, burst: nat, maximize: bool) -> Standing
    decreases visits.len(),
{
    if visits.len() == 0 {
        Standing { current: seed, burst_best: seed, in_burst: 0 }
    } else {
        let before = standing(seed, visits.drop_last(), burst, maximize);
        let v = visits.last();
        let best = if better(v.score, before.burst_best.score, maximize) {
            v
        } else {
            before.burst_best
        };
        if before.in_burst + 1 == burst {
            let current = if better(best.score, v.score, maximize) {
                best
            } else {
                v
            };
            Standing { current, burst_best: current, in_burst: 0 }
        } else {
            Standing { current: v, burst_best: best, in_burst: before.in_burst + 1 }
        }
    }
}

/// The bursts of a walk count their steps, and a burst never ends on a plan
/// that is worse than the one that it started from: the best plan of a burst is
/// no worse than where the burst began.
pub proof fn bursts_never_lose_ground(
    seed: Visit,
    visits: Seq<Visit>,
    burst: nat,
    maximize: bool,
)
    requires
        burst > 0,
    ensures
        standing(seed, visits, burst, maximize).in_burst == visits.len() % burst,
        standing(seed, visits, burst, maximize).in_burst == 0 ==> standing(
            seed,
            visits,
            burst,
            maximize,
        ).burst_best == standing(seed, visits, burst, maximize).current,
        visits.len() >= burst && visits.len() % burst == 0 ==> !better(
            standing(
                seed,
                visits.take(visits.len() - burst),
                burst,
                maximize,
            ).current.score,
            standing(seed, visits, burst, maximize).current.score,
            maximize,
        ),
    decreases visits.len(),
{
    let n = visits.len() as int;
    let m = burst as int;
    if n > 0 {
        let init = visits.drop_last();
        bursts_never_lose_ground(seed, init, burst, maximize);
        let (q, k) = one_more(n - 1, m);
        if k + 1 == m {
            let start = visits.take(n - m);
            bursts_never_lose_ground(seed, start, burst, maximize);
            burst_keeps_its_best(seed, visits, burst, maximize, (burst - 1) as nat);
            assert(visits.take(n - 1) =~= init);
        }
    } else {
        vstd::arithmetic::div_mod::lemma_small_mod(0, burst);
    }
}

/// Quotient and remainder of a number, and what they are for the next one and
/// for the one before the last `m`.
proof fn one_more(x: int, m: int) -> (r: (int, int))
    requires
        x >= 0,
        m > 0,
    ensures
        r.1 == x % m,
        0 <= r.1 < m,
        r.1 + 1 < m ==> (x + 1) % m == r.1 + 1,
        r.1 + 1 == m ==> (x + 1) % m == 0 && x + 1 >= m && (x + 1 - m) % m == 0,
{
    let q = x / m;
    let k = x % m;
    vstd::arithmetic::div_mod::lemma_fundamental_div_mod(x, m);
    vstd::arithmetic::div_mod::lemma_mod_bound(x, m);
    vstd::arithmetic::div_mod::lemma_div_pos_is_pos(x, m);
    assert(m * q == q * m) by (nonlinear_arith);
    if k + 1 < m {
        vstd::arithmetic::div_mod::lemma_fundamental_div_mod_converse(x + 1, m, q, k + 1);
    } else {
        assert((q + 1) * m == q * m + m) by (nonlinear_arith);
        vstd::arithmetic::div_mod::lemma_fundamental_div_mod_converse(x + 1, m, q + 1, 0);
        vstd::arithmetic::div_mod::lemma_fundamental_div_mod_converse(x + 1 - m, m, q, 0);
        assert(q * m >= 0) by (nonlinear_arith)
            requires
                q >= 0,
                m > 0,
        ;
    }
    (q, k)
}

/// Within a burst the best plan is no worse than where the burst began.
proof fn burst_keeps_its_best(
    seed: Visit,
    visits: Seq<Visit>,
    burst: nat,
    maximize: bool,
    k: nat,
)
    requires
        burst > 0,
        visits.len() >= burst,
        k < burst,
        standing(seed, visits.take(visits.len() - burst), burst, maximize).in_burst == 0,
        standing(seed, visits.take(visits.len() - burst), burst, maximize).burst_best == standing(
            seed,
            visits.take(visits.len() - burst),
            burst,
            maximize,
        ).current,
    ensures
        ({
            let start = visits.len() - burst;
            let now = standing(seed, visits.take(start + k), burst, maximize);
            &&& now.in_burst == k
            &&& !better(
                standing(seed, visits.take(start), burst, maximize).current.score,
                now.burst_best.score,
                maximize,
            )
            &&& now.burst_best.score.nan() ==> standing(
                seed,
                visits.take(start),
                burst,
                maximize,
            ).current.score.nan()
        }),
    decreases k,
{
    let start = visits.len() - burst;
    if k > 0 {
        burst_keeps_its_best(seed, visits, burst, maximize, (k - 1) as nat);
        assert(visits.take(start + k).drop_last() =~= visits.take(start + k - 1));
    }
}

/// Within a burst the walk stands at its last visit and keeps the best of the
/// plan that the burst started from and the visits of the burst.
pub proof fn a_burst_keeps_the_best_of_its_visits(
    seed: Visit,
    visits: Seq<Visit>,
    burst: nat,
    maximize: bool,
    start: int,
)
    requires
        burst > 0,
        0 <= start <= visits.len() < start + burst,
        start % (burst as int) == 0,
    ensures
        ({
            let from = standing(seed, visits.take(start), burst, maximize).current;
            let now = standing(seed, visits, burst, maximize);
            &&& now.in_burst == visits.len() - start
            &&& now.burst_best == best_of(
                from,
                visits.subrange(start, visits.len() as int),
                maximize,
            )
            &&& visits.len() > start ==> now.current == visits.last()
            &&& visits.len() == start ==> now.current == from
        }),
    decreases visits.len() - start,
{
    if visits.len() == start {
        assert(visits.take(start) =~= visits);
        bursts_never_lose_ground(seed, visits, burst, maximize);
    } else {
        let init = visits.drop_last();
        assert(init.take(start) =~= visits.take(start));
        a_burst_keeps_the_best_of_its_visits(seed, init, burst, maximize, start);
        let part = visits.subrange(start, visits.len() as int);
        assert(part.drop_last() =~= init.subrange(start, init.len() as int));
        assert(part.last() == visits.last());
    }
}

/// At the end of a burst the walk goes back to the best plan of the burst: the
/// next burst starts from a plan of this one, or from where this one started,
/// and no plan of the burst, nor the one that it started from, is better. A
/// burst that starts from a plan without a score has no best plan.
pub proof fn bursts_go_back_to_their_best(
    seed: Visit,
    visits: Seq<Visit>,
    burst: nat,
    maximize: bool,
)
    requires
        burst > 0,
        visits.len() >= burst,
        visits.len() % burst == 0,
        !standing(
            seed,
            visits.take(visits.len() - burst),
            burst,
            maximize,
        ).current.score.nan(),
    ensures
        ({
            let start = visits.len() - burst;
            let from = standing(seed, visits.take(start), burst, maximize).current;
            let next = standing(seed, visits, burst, maximize).current;
            &&& next == from || exists|i: int|
                start <= i < visits.len() && #[trigger] visits[i] == next
            &&& !better(from.score, next.score, maximize)
            &&& forall|i: int|
                start <= i < visits.len() ==> !better(
                    (#[trigger] visits[i]).score,
                    next.score,
                    maximize,
                )
        }),
{
    let n = visits.len() as int;
    let start = n - burst;
    let (q, k) = one_more(n - 1, burst as int);
    assert(k + 1 == burst as int);
    let init = visits.drop_last();
    let from = standing(seed, visits.take(start), burst, maximize).current;
    assert(init.take(start) =~= visits.take(start));
    a_burst_keeps_the_best_of_its_visits(seed, init, burst, maximize, start);
    let part = init.subrange(start, init.len() as int);
    best_is_best(from, part, maximize);
    let before = standing(seed, init, burst, maximize);
    let next = standing(seed, visits, burst, maximize).current;
    if part.contains(before.burst_best) {
        let j = choose|j: int| 0 <= j < part.len() && part[j] == before.burst_best;
        assert(visits[start + j] == before.burst_best);
    }
    assert(visits[n - 1] == visits.last());
    best_stays_a_number(from, part, maximize);
    assert forall|i: int| start <= i < visits.len() implies !better(
        (#[trigger] visits[i]).score,
        next.score,
        maximize,
    ) by {
        if i < n - 1 {
            assert(part[i - start] == visits[i]);
        }
    }
}

/// The best of visits from a number on has a number for its score.
pub proof fn best_stays_a_number(start: Visit, visits: Seq<Visit>, maximize: bool)
    requires
        !start.score.nan(),
    ensures
        !best_of(start, visits, maximize).score.nan(),
    decreases visits.len(),
{
    if visits.len() > 0 {
        best_stays_a_number(start, visits.drop_last(), maximize);
    }
}

} // verus!
