//! The total distance is the least over all assignments of targets to distinct
//! districts.

use vstd::prelude::*;
use crate::double;
use crate::double::{Arithmetic, Double, Op};
use crate::objectives::matching;
use crate::sorting;

verus! {

/// The distance of two whole numbers.
pub open spec fn gap(a: int, b: int) -> int {
    if a < b {
        b - a
    } else {
        a - b
    }
}

/// The distances of the first `j` targets to the shares at the named places,
/// added up.
pub open spec fn gaps(shares: Seq<int>, targets: Seq<int>, places: Seq<int>, j: int) -> int
    decreases j,
{
    if j <= 0 {
        0
    } else {
        gaps(shares, targets, places, j - 1) + gap(shares[places[j - 1]], targets[j - 1])
    }
}

/// Whether numbers do not descend.
pub open spec fn climbs(values: Seq<int>) -> bool {
    forall|i: int, j: int|
        0 <= i <= j < values.len() ==> #[trigger] values[i] <= #[trigger] values[j]
}

/// Whether places below `n` are named, none twice.
pub open spec fn distinct_below(places: Seq<int>, n: int) -> bool {
    &&& places.no_duplicates()
    &&& forall|j: int| 0 <= j < places.len() ==> 0 <= #[trigger] places[j] < n
}

proof fn gaps_with_another_place(
    shares: Seq<int>,
    targets: Seq<int>,
    places: Seq<int>,
    m: int,
    v: int,
    j: int,
)
    requires
        0 <= m < places.len(),
        0 <= j <= places.len(),
    ensures
        gaps(shares, targets, places.update(m, v), j) == gaps(shares, targets, places, j) + (
        if m < j {
            gap(shares[v], targets[m]) - gap(shares[places[m]], targets[m])
        } else {
            0
        }),
    decreases j,
{
    if j > 0 {
        gaps_with_another_place(shares, targets, places, m, v, j - 1);
    }
}

proof fn gaps_of_prefix(
    shares: Seq<int>,
    targets: Seq<int>,
    a: Seq<int>,
    b: Seq<int>,
    j: int,
)
    requires
        0 <= j <= a.len(),
        j <= b.len(),
        forall|i: int| 0 <= i < j ==> #[trigger] a[i] == b[i],
    ensures
        gaps(shares, targets, a, j) == gaps(shares, targets, b, j),
    decreases j,
{
    if j > 0 {
        gaps_of_prefix(shares, targets, a, b, j - 1);
        assert(a[j - 1] == b[j - 1]);
    }
}

proof fn highest(places: Seq<int>) -> (m: int)
    requires
        places.len() > 0,
    ensures
        0 <= m < places.len(),
        forall|j: int| 0 <= j < places.len() ==> #[trigger] places[j] <= places[m],
    decreases places.len(),
{
    if places.len() == 1 {
        0
    } else {
        let init = places.drop_last();
        let m = highest(init);
        assert forall|j: int| 0 <= j < places.len() - 1 implies #[trigger] places[j]
            <= places[m] by {
            assert(init[j] == places[j]);
        }
        if places.last() <= places[m] {
            m
        } else {
            places.len() - 1
        }
    }
}

/// Putting places in order makes no assignment of ascending targets to
/// ascending shares longer.
pub proof fn uncrossed(shares: Seq<int>, targets: Seq<int>, places: Seq<int>, n: int) -> (r: Seq<
    int,
>)
    requires
        0 <= n <= shares.len(),
        places.len() <= targets.len(),
        climbs(shares),
        climbs(targets),
        distinct_below(places, n),
    ensures
        r.len() == places.len(),
        matching::keeps_order(r, n),
        gaps(shares, targets, r, r.len() as int) <= gaps(
            shares,
            targets,
            places,
            places.len() as int,
        ),
    decreases places.len(),
{
    let k = places.len() as int;
    if k == 0 {
        places
    } else {
        let m = highest(places);
        let top = places[m];
        let other = places[k - 1];
        let moved = places.update(m, other);
        let swapped = moved.update(k - 1, top);
        gaps_with_another_place(shares, targets, places, m, other, k);
        gaps_with_another_place(shares, targets, moved, k - 1, top, k);
        assert(shares[other] <= shares[top]);
        assert(targets[m] <= targets[k - 1]);
        let init = swapped.drop_last();
        assert forall|j: int| 0 <= j < init.len() implies 0 <= #[trigger] init[j] < top by {
            if j == m {
                assert(init[j] == other);
                assert(places[k - 1] <= top);
                assert(places[k - 1] != places[m]);
            } else {
                assert(init[j] == places[j]);
                assert(places[j] != places[m]);
            }
        }
        assert forall|i: int, j: int| 0 <= i < init.len() && 0 <= j < init.len() && i != j implies
            init[i] != init[j] by {
            let x = if i == m {
                k - 1
            } else {
                i
            };
            let y = if j == m {
                k - 1
            } else {
                j
            };
            assert(init[i] == places[x] && init[j] == places[y]);
            assert(places[x] != places[y]);
        }
        let shorter = uncrossed(shares, targets, init, top);
        let r = shorter.push(top);
        gaps_of_prefix(shares, targets, shorter, r, k - 1);
        gaps_of_prefix(shares, targets, init, swapped, k - 1);
        assert(swapped[k - 1] == top);
        r
    }
}

/// Whether numbers lie on a scale on which the arithmetic is exact, the scale
/// keeps their order, and they lie within a reach that sums of `k` distances
/// stay below the bound.
pub open spec fn measured_on<F: Fn(Op, Double, Double) -> Double>(
    numbers: Arithmetic<F>,
    scale: spec_fn(Double) -> Option<int>,
    bound: int,
    reach: int,
    k: int,
    values: Seq<Double>,
) -> bool {
    &&& numbers.exact_on(scale, bound)
    &&& keeps_numbers_in_order(scale)
    &&& 0 <= reach
    &&& 2 * reach * k <= bound
    &&& 2 * reach <= bound
    &&& forall|i: int|
        0 <= i < values.len() ==> scale(#[trigger] values[i]) is Some && -reach <= scale(
            values[i],
        )->0 <= reach
}

/// Whether a scale keeps the order of numbers and their magnitudes. Multiples
/// of a power of two do.
#[verifier::opaque]
pub open spec fn keeps_numbers_in_order(scale: spec_fn(Double) -> Option<int>) -> bool {
    &&& forall|x: Double| #[trigger] scale(x) is Some ==> x.finite() && scale(x.magnitude_of())
        == Some(gap(scale(x)->0, 0))
    &&& forall|x: Double, y: Double|
        #![trigger scale(x), scale(y)]
        scale(x) is Some && scale(y) is Some ==> (x.position() <= y.position() <==> scale(x)->0
            <= scale(y)->0)
}

proof fn order_is_kept(scale: spec_fn(Double) -> Option<int>, x: Double, y: Double)
    requires
        keeps_numbers_in_order(scale),
        scale(x) is Some,
        scale(y) is Some,
    ensures
        x.finite(),
        y.finite(),
        scale(x.magnitude_of()) == Some(gap(scale(x)->0, 0)),
        x.position() <= y.position() <==> scale(x)->0 <= scale(y)->0,
{
    reveal(keeps_numbers_in_order);
}

/// What numbers stand for on a scale.
pub open spec fn whole(scale: spec_fn(Double) -> Option<int>, values: Seq<Double>) -> Seq<int> {
    Seq::new(values.len(), |i: int| scale(values[i])->0)
}

proof fn distance_is_exact<F: Fn(Op, Double, Double) -> Double>(
    numbers: Arithmetic<F>,
    scale: spec_fn(Double) -> Option<int>,
    bound: int,
    reach: int,
    x: Double,
    t: Double,
)
    requires
        numbers.exact_on(scale, bound),
        keeps_numbers_in_order(scale),
        2 * reach <= bound,
        scale(x) is Some && -reach <= scale(x)->0 <= reach,
        scale(t) is Some && -reach <= scale(t)->0 <= reach,
    ensures
        scale(matching::distance(numbers, x, t)) == Some(gap(scale(x)->0, scale(t)->0)),
        0 <= gap(scale(x)->0, scale(t)->0) <= 2 * reach,
{
    numbers.exact_results(scale, bound, x, t);
    let d = numbers.difference(x, t);
    order_is_kept(scale, d, d);
}

proof fn cost_is_exact<F: Fn(Op, Double, Double) -> Double>(
    numbers: Arithmetic<F>,
    scale: spec_fn(Double) -> Option<int>,
    bound: int,
    reach: int,
    k: int,
    shares: Seq<Double>,
    targets: Seq<Double>,
    places: Seq<int>,
    j: int,
)
    requires
        measured_on(numbers, scale, bound, reach, k, shares),
        measured_on(numbers, scale, bound, reach, k, targets),
        0 <= j <= k,
        j <= places.len(),
        j <= targets.len(),
        forall|i: int| 0 <= i < places.len() ==> 0 <= #[trigger] places[i] < shares.len(),
    ensures
        scale(matching::matching_cost(numbers, shares, targets, places, j)) == Some(
            gaps(whole(scale, shares), whole(scale, targets), places, j),
        ),
        0 <= gaps(whole(scale, shares), whole(scale, targets), places, j) <= 2 * reach * j,
    decreases j,
{
    if j <= 0 {
        reveal(Arithmetic::exact_on);
    } else {
        cost_is_exact(numbers, scale, bound, reach, k, shares, targets, places, j - 1);
        let x = shares[places[j - 1]];
        let t = targets[j - 1];
        distance_is_exact(numbers, scale, bound, reach, x, t);
        assert(2 * reach * j == 2 * reach * (j - 1) + 2 * reach) by (nonlinear_arith);
        assert(2 * reach * j <= 2 * reach * k) by (nonlinear_arith)
            requires
                0 <= reach,
                j <= k,
        ;
        numbers.exact_results(
            scale,
            bound,
            matching::matching_cost(numbers, shares, targets, places, j - 1),
            matching::distance(numbers, x, t),
        );
    }
}

/// The places of an assignment among sorted shares.
proof fn found_in_order(
    keys: Seq<u64>,
    order: Seq<usize>,
    places: Seq<int>,
) -> (r: Seq<int>)
    requires
        sorting::stable_order_of(keys, order),
        keys.len() <= usize::MAX,
        distinct_below(places, keys.len() as int),
    ensures
        r.len() == places.len(),
        distinct_below(r, keys.len() as int),
        forall|j: int| 0 <= j < r.len() ==> order[#[trigger] r[j]] == places[j],
{
    let r = Seq::new(
        places.len(),
        |j: int| choose|i: int| 0 <= i < order.len() && order[i] == places[j] as usize,
    );
    assert forall|j: int| 0 <= j < r.len() implies 0 <= #[trigger] r[j] < order.len() && order[r[j]]
        == places[j] by {
        assert(0 <= places[j] < keys.len());
        assert(order.contains(places[j] as usize));
        let i = choose|i: int| 0 <= i < order.len() && order[i] == places[j] as usize;
        assert(r[j] == i);
    }
    assert forall|i: int, j: int| 0 <= i < r.len() && 0 <= j < r.len() && i != j implies r[i]
        != r[j] by {
        assert(places[i] != places[j]);
        assert(order[r[i]] == places[i] && order[r[j]] == places[j]);
    }
    r
}

proof fn gaps_among_sorted(
    shares: Seq<int>,
    sorted: Seq<int>,
    targets: Seq<int>,
    places: Seq<int>,
    found: Seq<int>,
    j: int,
)
    requires
        0 <= j <= places.len(),
        places.len() == found.len(),
        forall|i: int| 0 <= i < places.len() ==> sorted[#[trigger] found[i]] == shares[places[i]],
    ensures
        gaps(sorted, targets, found, j) == gaps(shares, targets, places, j),
    decreases j,
{
    if j > 0 {
        gaps_among_sorted(shares, sorted, targets, places, found, j - 1);
        assert(sorted[found[j - 1]] == shares[places[j - 1]]);
    }
}

/// A sorted copy of numbers on a scale does not descend, and holds what places
/// of the numbers name.
proof fn sorted_copy_climbs(
    scale: spec_fn(Double) -> Option<int>,
    values: Seq<Double>,
    sorted: Seq<Double>,
    places: Seq<int>,
) -> (found: Seq<int>)
    requires
        matching::is_sorted_copy(values, sorted),
        keeps_numbers_in_order(scale),
        values.len() <= usize::MAX,
        forall|i: int| 0 <= i < values.len() ==> scale(#[trigger] values[i]) is Some,
        distinct_below(places, values.len() as int),
    ensures
        sorted.len() == values.len(),
        climbs(whole(scale, sorted)),
        forall|i: int| 0 <= i < sorted.len() ==> values.contains(#[trigger] sorted[i]),
        found.len() == places.len(),
        distinct_below(found, sorted.len() as int),
        forall|j: int|
            0 <= j < found.len() ==> sorted[#[trigger] found[j]] == values[places[j]],
{
    let keys = matching::total_keys(values);
    let order = choose|order: Seq<usize>| #[trigger]
        sorting::stable_order_of(keys, order) && sorted == Seq::new(
            order.len(),
            |i: int| values[order[i] as int],
        );
    assert forall|i: int, j: int| 0 <= i <= j < sorted.len() implies #[trigger] whole(
        scale,
        sorted,
    )[i] <= #[trigger] whole(scale, sorted)[j] by {
        assert(order.contains(order[i]) && order.contains(order[j]));
        let x = values[order[i] as int];
        let y = values[order[j] as int];
        assert(sorted[i] == x && sorted[j] == y);
        assert(scale(x) is Some && scale(y) is Some);
        if i < j {
            assert(sorting::precedes(keys, order[i], order[j]));
            assert(keys[order[i] as int] == x.total_position());
            assert(keys[order[j] as int] == y.total_position());
            order_is_kept(scale, x, y);
            assert(x.position() <= y.position());
        }
    }
    assert forall|i: int| 0 <= i < sorted.len() implies values.contains(#[trigger] sorted[i]) by {
        assert(order.contains(order[i]));
        assert(values[order[i] as int] == sorted[i]);
    }
    let found = found_in_order(keys, order, places);
    assert forall|j: int| 0 <= j < found.len() implies sorted[#[trigger] found[j]]
        == values[places[j]] by {
        assert(order[found[j]] == places[j]);
    }
    found
}

/// The numbers themselves, one after another.
spec fn identity(k: int) -> Seq<int> {
    Seq::new(k as nat, |i: int| i)
}

proof fn ordered_places_lie_above(places: Seq<int>, n: int, j: int)
    requires
        matching::keeps_order(places, n),
        0 <= j < places.len(),
    ensures
        j <= places[j],
        places[j] <= n - places.len() + j,
    decreases j,
{
    if j > 0 {
        ordered_places_lie_above(places, n, j - 1);
        assert(places[j - 1] < places[j]);
    }
    ordered_places_lie_below(places, n, j);
}

proof fn ordered_places_lie_below(places: Seq<int>, n: int, j: int)
    requires
        matching::keeps_order(places, n),
        0 <= j < places.len(),
    ensures
        places[j] <= n - places.len() + j,
    decreases places.len() - j,
{
    if j < places.len() - 1 {
        ordered_places_lie_below(places, n, j + 1);
        assert(places[j] < places[j + 1]);
    }
}

proof fn pairs_cost_alike<F: Fn(Op, Double, Double) -> Double>(
    numbers: Arithmetic<F>,
    shares: Seq<Double>,
    targets: Seq<Double>,
    k: int,
    j: int,
)
    requires
        0 <= j <= k <= targets.len(),
    ensures
        matching::matching_cost(numbers, shares, targets, identity(k), j) == numbers.total(
            matching::pair_distances(numbers, shares, targets).take(j),
        ),
    decreases j,
{
    let all = matching::pair_distances(numbers, shares, targets);
    if j > 0 {
        pairs_cost_alike(numbers, shares, targets, k, j - 1);
        assert(all.take(j).drop_last() =~= all.take(j - 1));
    } else {
        assert(all.take(0) =~= Seq::<Double>::empty());
    }
}

/// What listed numbers come to.
spec fn whole_total(values: Seq<int>, j: int) -> int
    decreases j,
{
    if j <= 0 {
        0
    } else {
        whole_total(values, j - 1) + values[j - 1]
    }
}

proof fn total_is_exact<F: Fn(Op, Double, Double) -> Double>(
    numbers: Arithmetic<F>,
    scale: spec_fn(Double) -> Option<int>,
    bound: int,
    reach: int,
    k: int,
    values: Seq<Double>,
    j: int,
)
    requires
        numbers.exact_on(scale, bound),
        0 <= reach,
        2 * reach * k <= bound,
        0 <= j <= k,
        j <= values.len(),
        forall|i: int|
            0 <= i < values.len() ==> scale(#[trigger] values[i]) is Some && 0 <= scale(
                values[i],
            )->0 <= 2 * reach,
    ensures
        scale(numbers.total(values.take(j))) == Some(whole_total(whole(scale, values), j)),
        0 <= whole_total(whole(scale, values), j) <= 2 * reach * j,
    decreases j,
{
    if j == 0 {
        assert(values.take(0) =~= Seq::<Double>::empty());
        reveal(Arithmetic::exact_on);
    } else {
        total_is_exact(numbers, scale, bound, reach, k, values, j - 1);
        assert(values.take(j).drop_last() =~= values.take(j - 1));
        assert(2 * reach * j == 2 * reach * (j - 1) + 2 * reach) by (nonlinear_arith);
        assert(2 * reach * j <= 2 * reach * k) by (nonlinear_arith)
            requires
                0 <= reach,
                j <= k,
        ;
        numbers.exact_results(
            scale,
            bound,
            numbers.total(values.take(j - 1)),
            values[j - 1],
        );
    }
}

proof fn nearest_are_nearest(sorted: Seq<int>, zeros: Seq<int>, places: Seq<int>, j: int)
    requires
        climbs(sorted),
        matching::keeps_order(places, sorted.len() as int),
        0 <= j <= places.len() <= zeros.len(),
        forall|i: int| 0 <= i < sorted.len() ==> 0 <= #[trigger] sorted[i],
        forall|i: int| 0 <= i < zeros.len() ==> #[trigger] zeros[i] == 0,
    ensures
        whole_total(sorted, j) <= gaps(sorted, zeros, places, j),
    decreases j,
{
    if j > 0 {
        nearest_are_nearest(sorted, zeros, places, j - 1);
        ordered_places_lie_above(places, sorted.len() as int, j - 1);
        assert(0 <= places[j - 1] < sorted.len());
        assert(sorted[j - 1] <= sorted[places[j - 1]]);
        assert(zeros[j - 1] == 0);
    }
}

proof fn gaps_to_one_target(
    shares: Seq<int>,
    targets: Seq<int>,
    devs: Seq<int>,
    zeros: Seq<int>,
    places: Seq<int>,
    t: int,
    j: int,
)
    requires
        0 <= j <= places.len() <= targets.len(),
        places.len() <= zeros.len(),
        forall|i: int| 0 <= i < targets.len() ==> #[trigger] targets[i] == t,
        forall|i: int| 0 <= i < zeros.len() ==> #[trigger] zeros[i] == 0,
        forall|i: int|
            0 <= i < places.len() ==> devs[#[trigger] places[i]] == gap(shares[places[i]], t),
    ensures
        gaps(devs, zeros, places, j) == gaps(shares, targets, places, j),
    decreases j,
{
    if j > 0 {
        gaps_to_one_target(shares, targets, devs, zeros, places, t, j - 1);
        assert(devs[places[j - 1]] == gap(shares[places[j - 1]], t));
        assert(targets[j - 1] == t);
        assert(zeros[j - 1] == 0);
    }
}

/// No assignment of the targets to distinct districts has a smaller total
/// distance, where the arithmetic is exact on the numbers and addition keeps
/// their order.
pub proof fn total_distance_is_least<F: Fn(Op, Double, Double) -> Double>(
    numbers: Arithmetic<F>,
    scale: spec_fn(Double) -> Option<int>,
    bound: int,
    reach: int,
    shares: Seq<Double>,
    targets: Seq<Double>,
    r: Double,
    places: Seq<int>,
)
    requires
        0 < targets.len() <= shares.len() <= usize::MAX,
        measured_on(
            numbers,
            scale,
            bound,
            reach,
            targets.len() as int,
            matching::effective_shares(shares),
        ),
        measured_on(numbers, scale, bound, reach, targets.len() as int, targets),
        matching::keeps_sums_in_order(numbers),
        climbs(whole(scale, targets)),
        matching::is_total_distance(numbers, shares, targets, r),
        places.len() == targets.len(),
        distinct_below(places, shares.len() as int),
    ensures
        r.at_most(
            matching::matching_cost(
                numbers,
                matching::effective_shares(shares),
                targets,
                places,
                targets.len() as int,
            ),
        ),
{
    let k = targets.len() as int;
    let n = shares.len() as int;
    let all = matching::effective_shares(shares);
    let ints = whole(scale, all);
    let goals = whole(scale, targets);
    let any = matching::matching_cost(numbers, all, targets, places, k);
    cost_is_exact(numbers, scale, bound, reach, k, all, targets, places, k);
    assert(scale(targets[0]) is Some && scale(targets[k - 1]) is Some);
    if targets[0].same_number(targets[k - 1]) {
        one_target_is_least(numbers, scale, bound, reach, shares, targets, r, places);
    } else {
        let sorted = choose|sorted: Seq<Double>| #[trigger]
            matching::is_sorted_copy(all, sorted) && r == (if k == shares.len() {
                numbers.total(matching::pair_distances(numbers, sorted, targets))
            } else {
                matching::least_cost(numbers, sorted, targets, shares.len() as int, k)
            });
        let found = sorted_copy_climbs(scale, all, sorted, places);
        let line = whole(scale, sorted);
        assert(measured_on(numbers, scale, bound, reach, k, sorted)) by {
            assert forall|i: int| 0 <= i < sorted.len() implies scale(
                #[trigger] sorted[i],
            ) is Some && -reach <= scale(sorted[i])->0 <= reach by {
                let d = choose|d: int| 0 <= d < all.len() && all[d] == sorted[i];
                assert(scale(all[d]) is Some);
            }
        }
        assert forall|i: int| 0 <= i < places.len() implies line[#[trigger] found[i]]
            == ints[places[i]] by {
            assert(sorted[found[i]] == all[places[i]]);
            assert(0 <= places[i] < n);
        }
        gaps_among_sorted(ints, line, goals, places, found, k);
        let ordered = uncrossed(line, goals, found, n);
        cost_is_exact(numbers, scale, bound, reach, k, sorted, targets, ordered, k);
        let best = matching::matching_cost(numbers, sorted, targets, ordered, k);
        order_is_kept(scale, best, any);
        assert(best.at_most(any));
        if k == n {
            assert(ordered =~= identity(k)) by {
                assert forall|j: int| 0 <= j < k implies ordered[j] == j by {
                    ordered_places_lie_above(ordered, n, j);
                }
            }
            pairs_cost_alike(numbers, sorted, targets, k, k);
            let pairs = matching::pair_distances(numbers, sorted, targets);
            assert(pairs.take(k) =~= pairs);
        } else {
            assert forall|j: int| 0 <= j <= k implies (#[trigger] matching::matching_cost(
                numbers,
                sorted,
                targets,
                ordered,
                j,
            )).finite() by {
                cost_is_exact(numbers, scale, bound, reach, k, sorted, targets, ordered, j);
                let cost = matching::matching_cost(numbers, sorted, targets, ordered, j);
                order_is_kept(scale, cost, cost);
            }
            assert forall|j: int| 0 <= j < k implies matching::distance(
                numbers,
                sorted[#[trigger] ordered[j]],
                targets[j],
            ).finite() by {
                distance_is_exact(
                    numbers,
                    scale,
                    bound,
                    reach,
                    sorted[ordered[j]],
                    targets[j],
                );
                let step = matching::distance(numbers, sorted[ordered[j]], targets[j]);
                order_is_kept(scale, step, step);
            }
            matching::least_cost_is_least(numbers, sorted, targets, n, k, ordered);
        }
    }
}

proof fn one_target_is_least<F: Fn(Op, Double, Double) -> Double>(
    numbers: Arithmetic<F>,
    scale: spec_fn(Double) -> Option<int>,
    bound: int,
    reach: int,
    shares: Seq<Double>,
    targets: Seq<Double>,
    r: Double,
    places: Seq<int>,
)
    requires
        0 < targets.len() <= shares.len() <= usize::MAX,
        measured_on(
            numbers,
            scale,
            bound,
            reach,
            targets.len() as int,
            matching::effective_shares(shares),
        ),
        measured_on(numbers, scale, bound, reach, targets.len() as int, targets),
        climbs(whole(scale, targets)),
        targets[0].same_number(targets[targets.len() - 1]),
        matching::is_total_distance(numbers, shares, targets, r),
        places.len() == targets.len(),
        distinct_below(places, shares.len() as int),
    ensures
        r.at_most(
            matching::matching_cost(
                numbers,
                matching::effective_shares(shares),
                targets,
                places,
                targets.len() as int,
            ),
        ),
{
    let k = targets.len() as int;
    let n = shares.len() as int;
    let all = matching::effective_shares(shares);
    let ints = whole(scale, all);
    let goals = whole(scale, targets);
    let t = targets[0];
    let devs = matching::distances_to(numbers, shares, t);
    let zeros = Seq::new(k as nat, |i: int| 0int);
    assert(scale(targets[0]) is Some && scale(targets[k - 1]) is Some);
    order_is_kept(scale, targets[0], targets[k - 1]);
    order_is_kept(scale, targets[k - 1], targets[0]);
    assert(scale(targets[0])->0 == scale(targets[k - 1])->0);
    assert forall|i: int| 0 <= i < goals.len() implies #[trigger] goals[i] == scale(t)->0 by {
        assert(goals[0] <= goals[i] <= goals[k - 1]);
    }
    assert forall|i: int| 0 <= i < devs.len() implies scale(#[trigger] devs[i]) == Some(
        gap(ints[i], scale(t)->0),
    ) && 0 <= gap(ints[i], scale(t)->0) <= 2 * reach by {
        assert(scale(all[i]) is Some);
        distance_is_exact(numbers, scale, bound, reach, all[i], t);
    }
    let sorted = choose|sorted: Seq<Double>| #[trigger]
        matching::is_sorted_copy(devs, sorted) && r == numbers.total(sorted.take(k));
    let found = sorted_copy_climbs(scale, devs, sorted, places);
    let line = whole(scale, sorted);
    assert forall|i: int| 0 <= i < sorted.len() implies scale(#[trigger] sorted[i]) is Some && 0
        <= scale(sorted[i])->0 <= 2 * reach by {
        let d = choose|d: int| 0 <= d < devs.len() && devs[d] == sorted[i];
        assert(scale(devs[d]) is Some);
    }
    total_is_exact(numbers, scale, bound, reach, k, sorted, k);
    let spread = whole(scale, devs);
    assert forall|i: int| 0 <= i < places.len() implies line[#[trigger] found[i]]
        == spread[places[i]] by {
        assert(sorted[found[i]] == devs[places[i]]);
        assert(0 <= places[i] < n);
    }
    gaps_among_sorted(spread, line, zeros, places, found, k);
    let ordered = uncrossed(line, zeros, found, n);
    nearest_are_nearest(line, zeros, ordered, k);
    assert forall|i: int| 0 <= i < places.len() implies spread[#[trigger] places[i]] == gap(
        ints[places[i]],
        scale(t)->0,
    ) by {
        assert(0 <= places[i] < n);
        assert(scale(devs[places[i]]) is Some);
    }
    gaps_to_one_target(ints, goals, spread, zeros, places, scale(t)->0, k);
    cost_is_exact(numbers, scale, bound, reach, k, all, targets, places, k);
    let any = matching::matching_cost(numbers, all, targets, places, k);
    order_is_kept(scale, r, any);
}

} // verus!
