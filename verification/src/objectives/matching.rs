//! Matching targets to distinct districts at the least total distance.

use vstd::prelude::*;
use crate::double;
use crate::double::{Arithmetic, Double, Op};
use crate::sorting;

verus! {

/// The keys of numbers in their total order.
pub open spec fn total_keys(values: Seq<Double>) -> Seq<u64> {
    Seq::new(values.len(), |i: int| values[i].total_position() as u64)
}

/// Whether `sorted` holds the values in ascending order.
pub open spec fn is_sorted_copy(values: Seq<Double>, sorted: Seq<Double>) -> bool {
    exists|order: Seq<usize>| #[trigger]
        sorting::stable_order_of(total_keys(values), order) && sorted == Seq::new(
            order.len(),
            |i: int| values[order[i] as int],
        )
}

/// There is one sorted copy of given values.
pub proof fn sorted_copy_is_unique(values: Seq<Double>, a: Seq<Double>, b: Seq<Double>)
    requires
        is_sorted_copy(values, a),
        is_sorted_copy(values, b),
    ensures
        a == b,
{
    let x = choose|order: Seq<usize>| #[trigger]
        sorting::stable_order_of(total_keys(values), order) && a == Seq::new(
            order.len(),
            |i: int| values[order[i] as int],
        );
    let y = choose|order: Seq<usize>| #[trigger]
        sorting::stable_order_of(total_keys(values), order) && b == Seq::new(
            order.len(),
            |i: int| values[order[i] as int],
        );
    sorting::stable_order_is_unique(total_keys(values), x, y);
}

/// Sorts numbers in their total order.
pub fn sort_doubles(values: &Vec<Double>) -> (r: Vec<Double>)
    ensures
        is_sorted_copy(values@, r@),
        r.len() == values.len(),
{
    let mut keys: Vec<u64> = Vec::new();
    let mut i: usize = 0;
    while i < values.len()
        invariant
            i <= values.len(),
            keys.len() == i,
            forall|j: int| 0 <= j < i ==> #[trigger] keys[j] == values[j].total_position(),
        decreases values.len() - i,
    {
        keys.push(values[i].total_key());
        i += 1;
    }
    assert(keys@ =~= total_keys(values@));
    let order: Vec<usize> = sorting::stable_order(&keys);
    let mut r: Vec<Double> = Vec::new();
    let mut k: usize = 0;
    while k < order.len()
        invariant
            k <= order.len(),
            keys@ == total_keys(values@),
            sorting::stable_order_of(keys@, order@),
            r.len() == k,
            forall|j: int| 0 <= j < k ==> #[trigger] r[j] == values[order[j] as int],
        decreases order.len() - k,
    {
        assert(order@.contains(order[k as int]));
        r.push(values[order[k]]);
        k += 1;
    }
    assert(r@ =~= Seq::new(order@.len(), |i: int| values@[order@[i] as int]));
    r
}

/// A share for ordering and distances: one that is not finite counts as
/// infinity.
pub open spec fn effective(share: Double) -> Double {
    if share.finite() {
        share
    } else {
        double::infinity()
    }
}

fn effective_share(share: Double) -> (r: Double)
    ensures
        r == effective(share),
{
    if share.is_finite() {
        share
    } else {
        double::infinity()
    }
}

/// The distance of two numbers.
pub open spec fn distance<F: Fn(Op, Double, Double) -> Double>(
    numbers: Arithmetic<F>,
    x: Double,
    t: Double,
) -> Double {
    numbers.difference(x, t).magnitude_of()
}

/// The least cost of assigning the first `j` targets, in order, to distinct
/// ones of the first `i` shares.
pub open spec fn least_cost<F: Fn(Op, Double, Double) -> Double>(
    numbers: Arithmetic<F>,
    shares: Seq<Double>,
    targets: Seq<Double>,
    i: int,
    j: int,
) -> Double
    decreases i,
{
    if j <= 0 {
        double::zero()
    } else if i <= 0 {
        double::infinity()
    } else {
        let without = least_cost(numbers, shares, targets, i - 1, j);
        let before = least_cost(numbers, shares, targets, i - 1, j - 1);
        let cost = numbers.sum(before, distance(numbers, shares[i - 1], targets[j - 1]));
        if before.finite() && cost.below(without) {
            cost
        } else {
            without
        }
    }
}

/// Whether a list names ascending places below `i`, one for each target.
pub open spec fn keeps_order(places: Seq<int>, i: int) -> bool {
    &&& forall|j: int| 0 <= j < places.len() ==> 0 <= #[trigger] places[j] < i
    &&& forall|j: int, k: int|
        0 <= j < k < places.len() ==> #[trigger] places[j] < #[trigger] places[k]
}

/// The cost of assigning the first `j` targets to the shares at the named
/// places, added up in order.
pub open spec fn matching_cost<F: Fn(Op, Double, Double) -> Double>(
    numbers: Arithmetic<F>,
    shares: Seq<Double>,
    targets: Seq<Double>,
    places: Seq<int>,
    j: int,
) -> Double
    decreases j,
{
    if j <= 0 {
        double::zero()
    } else {
        numbers.sum(
            matching_cost(numbers, shares, targets, places, j - 1),
            distance(numbers, shares[places[j - 1]], targets[j - 1]),
        )
    }
}

proof fn cost_of_prefix<F: Fn(Op, Double, Double) -> Double>(
    numbers: Arithmetic<F>,
    shares: Seq<Double>,
    targets: Seq<Double>,
    places: Seq<int>,
    more: Seq<int>,
    j: int,
)
    requires
        0 <= j <= places.len() <= more.len(),
        forall|i: int| 0 <= i < j ==> places[i] == #[trigger] more[i],
    ensures
        matching_cost(numbers, shares, targets, places, j) == matching_cost(
            numbers,
            shares,
            targets,
            more,
            j,
        ),
    decreases j,
{
    if j > 0 {
        cost_of_prefix(numbers, shares, targets, places, more, j - 1);
        assert(places[j - 1] == more[j - 1]);
    }
}

/// A least cost other than infinity is that of an assignment of the targets, in
/// order, to distinct shares.
pub proof fn least_cost_is_attained<F: Fn(Op, Double, Double) -> Double>(
    numbers: Arithmetic<F>,
    shares: Seq<Double>,
    targets: Seq<Double>,
    i: int,
    j: int,
) -> (places: Seq<int>)
    requires
        0 <= i <= shares.len(),
        0 <= j <= targets.len(),
    ensures
        !least_cost(numbers, shares, targets, i, j).nan(),
        least_cost(numbers, shares, targets, i, j) != double::infinity() ==> {
            &&& places.len() == j
            &&& keeps_order(places, i)
            &&& matching_cost(numbers, shares, targets, places, j) == least_cost(
                numbers,
                shares,
                targets,
                i,
                j,
            )
        },
    decreases i,
{
    if j <= 0 {
        Seq::empty()
    } else if i <= 0 {
        Seq::empty()
    } else {
        let without = least_cost(numbers, shares, targets, i - 1, j);
        let before = least_cost(numbers, shares, targets, i - 1, j - 1);
        let cost = numbers.sum(before, distance(numbers, shares[i - 1], targets[j - 1]));
        let kept = least_cost_is_attained(numbers, shares, targets, i - 1, j);
        let shorter = least_cost_is_attained(numbers, shares, targets, i - 1, j - 1);
        if before.finite() && cost.below(without) {
            let places = shorter.push(i - 1);
            assert(places.drop_last() =~= shorter);
            cost_of_prefix(numbers, shares, targets, shorter, places, j - 1);
            places
        } else {
            kept
        }
    }
}

/// Addition keeps the order of finite numbers, adding what is not negative to
/// a finite number gives no smaller one, and a sum with what is no number is no
/// number.
pub open spec fn keeps_sums_in_order<F: Fn(Op, Double, Double) -> Double>(
    numbers: Arithmetic<F>,
) -> bool {
    &&& forall|x: Double, y: Double, c: Double|
        x.finite() && y.finite() && c.finite() && x.at_most(y) ==> (#[trigger] numbers.sum(
            x,
            c,
        )).at_most(#[trigger] numbers.sum(y, c))
    &&& forall|x: Double, c: Double|
        x.finite() && double::zero().at_most(c) ==> x.at_most(#[trigger] numbers.sum(x, c))
    &&& forall|x: Double, c: Double| c.nan() ==> (#[trigger] numbers.sum(x, c)).nan()
}

/// A least cost is not negative.
proof fn least_cost_is_not_negative<F: Fn(Op, Double, Double) -> Double>(
    numbers: Arithmetic<F>,
    shares: Seq<Double>,
    targets: Seq<Double>,
    i: int,
    j: int,
)
    requires
        keeps_sums_in_order(numbers),
    ensures
        double::zero().at_most(least_cost(numbers, shares, targets, i, j)),
    decreases i,
{
    if j > 0 && i > 0 {
        least_cost_is_not_negative(numbers, shares, targets, i - 1, j);
        least_cost_is_not_negative(numbers, shares, targets, i - 1, j - 1);
        let before = least_cost(numbers, shares, targets, i - 1, j - 1);
        let step = distance(numbers, shares[i - 1], targets[j - 1]);
        let cost = numbers.sum(before, step);
        if !step.nan() {
            assert(double::zero().at_most(step));
        }
    }
}

/// No assignment of the targets, in order, to distinct shares costs less than
/// the least cost, where addition keeps the order of numbers and the costs stay
/// finite.
pub proof fn least_cost_is_least<F: Fn(Op, Double, Double) -> Double>(
    numbers: Arithmetic<F>,
    shares: Seq<Double>,
    targets: Seq<Double>,
    i: int,
    j: int,
    places: Seq<int>,
)
    requires
        0 <= i <= shares.len(),
        0 <= j <= targets.len(),
        places.len() == j,
        keeps_order(places, i),
        keeps_sums_in_order(numbers),
        forall|k: int|
            0 <= k <= j ==> (#[trigger] matching_cost(
                numbers,
                shares,
                targets,
                places,
                k,
            )).finite(),
        forall|k: int|
            0 <= k < j ==> distance(numbers, shares[#[trigger] places[k]], targets[k]).finite(),
    ensures
        least_cost(numbers, shares, targets, i, j).at_most(
            matching_cost(numbers, shares, targets, places, j),
        ),
    decreases i,
{
    let this = matching_cost(numbers, shares, targets, places, j);
    assert(this.finite());
    least_cost_is_attained(numbers, shares, targets, i, j);
    if j > 0 {
        assert(0 <= places[j - 1] < i);
        let without = least_cost(numbers, shares, targets, i - 1, j);
        let before = least_cost(numbers, shares, targets, i - 1, j - 1);
        least_cost_is_attained(numbers, shares, targets, i - 1, j);
        least_cost_is_attained(numbers, shares, targets, i - 1, j - 1);
        if places[j - 1] < i - 1 {
            assert forall|k: int| 0 <= k < places.len() implies 0 <= #[trigger] places[k] < i
                - 1 by {
                if k < j - 1 {
                    assert(places[k] < places[j - 1]);
                }
            }
            least_cost_is_least(numbers, shares, targets, i - 1, j, places);
        } else {
            let shorter = places.drop_last();
            assert forall|k: int| 0 <= k < shorter.len() implies 0 <= #[trigger] shorter[k] < i
                - 1 by {
                assert(shorter[k] == places[k]);
                assert(places[k] < places[j - 1]);
            }
            assert forall|a: int, b: int| 0 <= a < b < shorter.len() implies #[trigger] shorter[a]
                < #[trigger] shorter[b] by {
                assert(places[a] < places[b]);
            }
            assert forall|k: int| 0 <= k <= j - 1 implies (#[trigger] matching_cost(
                numbers,
                shares,
                targets,
                shorter,
                k,
            )).finite() by {
                cost_of_prefix(numbers, shares, targets, shorter, places, k);
                assert(matching_cost(numbers, shares, targets, places, k).finite());
            }
            assert forall|k: int| 0 <= k < j - 1 implies distance(
                numbers,
                shares[#[trigger] shorter[k]],
                targets[k],
            ).finite() by {
                assert(shorter[k] == places[k]);
                assert(distance(numbers, shares[places[k]], targets[k]).finite());
            }
            least_cost_is_least(numbers, shares, targets, i - 1, j - 1, shorter);
            cost_of_prefix(numbers, shares, targets, shorter, places, j - 1);
            let prefix = matching_cost(numbers, shares, targets, places, j - 1);
            assert(prefix.finite());
            assert(before.at_most(prefix));
            let step = distance(numbers, shares[places[j - 1]], targets[j - 1]);
            if before.finite() {
                assert(numbers.sum(before, step).at_most(numbers.sum(prefix, step)));
            } else {
                least_cost_is_not_negative(numbers, shares, targets, i - 1, j - 1);
            }
        }
    }
}

/// Computes the least cost of assigning the targets, in order, to distinct
/// shares.
fn assign<F: Fn(Op, Double, Double) -> Double>(
    numbers: &Arithmetic<F>,
    shares: &Vec<Double>,
    targets: &Vec<Double>,
) -> (r: Double)
    requires
        numbers.valid(),
        targets.len() < usize::MAX,
    ensures
        r == least_cost(
            *numbers,
            shares@,
            targets@,
            shares@.len() as int,
            targets@.len() as int,
        ),
{
    let k: usize = targets.len();
    let mut row: Vec<Double> = Vec::new();
    row.push(double::zero());
    let mut fill: usize = 0;
    while fill < k
        invariant
            fill <= k,
            row.len() == fill + 1,
            k < usize::MAX,
            forall|j: int|
                0 <= j <= fill ==> #[trigger] row[j] == least_cost(
                    *numbers,
                    shares@,
                    targets@,
                    0,
                    j,
                ),
        decreases k - fill,
    {
        row.push(double::infinity());
        fill += 1;
    }
    let mut i: usize = 0;
    while i < shares.len()
        invariant
            i <= shares.len(),
            numbers.valid(),
            k == targets.len(),
            row.len() == k + 1,
            forall|j: int|
                0 <= j <= k ==> #[trigger] row[j] == least_cost(
                    *numbers,
                    shares@,
                    targets@,
                    i as int,
                    j,
                ),
        decreases shares.len() - i,
    {
        let share: Double = shares[i];
        let mut j: usize = k;
        while j > 0
            invariant
                i < shares.len(),
                j <= k,
                numbers.valid(),
                k == targets.len(),
                row.len() == k + 1,
                share == shares[i as int],
                forall|m: int|
                    0 <= m <= k ==> #[trigger] row[m] == least_cost(
                        *numbers,
                        shares@,
                        targets@,
                        if m > j {
                            i + 1
                        } else {
                            i as int
                        },
                        m,
                    ),
            decreases j,
        {
            let before: Double = row[j - 1];
            if before.is_finite() {
                let cost: Double = numbers.plus(
                    before,
                    numbers.minus(share, targets[j - 1]).abs(),
                );
                if cost.lt(row[j]) {
                    row.set(j, cost);
                }
            }
            j -= 1;
        }
        i += 1;
    }
    row[k]
}

/// The distances of effective shares to one target.
pub open spec fn distances_to<F: Fn(Op, Double, Double) -> Double>(
    numbers: Arithmetic<F>,
    shares: Seq<Double>,
    t: Double,
) -> Seq<Double> {
    Seq::new(shares.len(), |i: int| distance(numbers, effective(shares[i]), t))
}

/// The effective shares.
pub open spec fn effective_shares(shares: Seq<Double>) -> Seq<Double> {
    Seq::new(shares.len(), |i: int| effective(shares[i]))
}

/// The distances of shares to targets, pair by pair.
pub open spec fn pair_distances<F: Fn(Op, Double, Double) -> Double>(
    numbers: Arithmetic<F>,
    shares: Seq<Double>,
    targets: Seq<Double>,
) -> Seq<Double> {
    Seq::new(targets.len(), |i: int| distance(numbers, shares[i], targets[i]))
}

/// Whether a number is the total distance of ascending targets to distinct
/// districts: equal targets take the nearest districts, one target for each
/// district takes them in order, and else the least cost assignment counts.
pub open spec fn is_total_distance<F: Fn(Op, Double, Double) -> Double>(
    numbers: Arithmetic<F>,
    shares: Seq<Double>,
    targets: Seq<Double>,
    r: Double,
) -> bool {
    let k = targets.len() as int;
    if targets[0].same_number(targets[k - 1]) {
        exists|sorted: Seq<Double>| #[trigger]
            is_sorted_copy(distances_to(numbers, shares, targets[0]), sorted) && r
                == numbers.total(sorted.take(k))
    } else {
        exists|sorted: Seq<Double>| #[trigger]
            is_sorted_copy(effective_shares(shares), sorted) && r == (if k == shares.len() {
                numbers.total(pair_distances(numbers, sorted, targets))
            } else {
                least_cost(numbers, sorted, targets, shares.len() as int, k)
            })
    }
}

/// The total distance of given shares and targets is one number.
pub proof fn total_distance_is_unique<F: Fn(Op, Double, Double) -> Double>(
    numbers: Arithmetic<F>,
    shares: Seq<Double>,
    targets: Seq<Double>,
    x: Double,
    y: Double,
)
    requires
        is_total_distance(numbers, shares, targets, x),
        is_total_distance(numbers, shares, targets, y),
    ensures
        x == y,
{
    let values = if targets[0].same_number(targets[targets.len() - 1]) {
        distances_to(numbers, shares, targets[0])
    } else {
        effective_shares(shares)
    };
    assert forall|a: Seq<Double>, b: Seq<Double>|
        #![trigger is_sorted_copy(values, a), is_sorted_copy(values, b)]
        is_sorted_copy(values, a) && is_sorted_copy(values, b) implies a == b by {
        sorted_copy_is_unique(values, a, b);
    }
}

/// The total distance of ascending targets to distinct districts.
pub fn by_district_abs_dev_score<F: Fn(Op, Double, Double) -> Double>(
    numbers: &Arithmetic<F>,
    shares: &Vec<Double>,
    targets: &Vec<Double>,
) -> (r: Double)
    requires
        numbers.valid(),
        0 < targets.len() <= shares.len(),
        shares.len() < usize::MAX,
    ensures
        is_total_distance(*numbers, shares@, targets@, r),
{
    let n: usize = shares.len();
    let k: usize = targets.len();
    if targets[0].equals(targets[k - 1]) {
        let t: Double = targets[0];
        let mut devs: Vec<Double> = Vec::new();
        let mut i: usize = 0;
        while i < n
            invariant
                i <= n,
                n == shares.len(),
                numbers.valid(),
                devs.len() == i,
                forall|j: int|
                    0 <= j < i ==> #[trigger] devs[j] == distance(
                        *numbers,
                        effective(shares[j]),
                        t,
                    ),
            decreases n - i,
        {
            devs.push(numbers.minus(effective_share(shares[i]), t).abs());
            i += 1;
        }
        assert(devs@ =~= distances_to(*numbers, shares@, t));
        let sorted: Vec<Double> = sort_doubles(&devs);
        let mut nearest: Vec<Double> = Vec::new();
        let mut m: usize = 0;
        while m < k
            invariant
                m <= k,
                k <= sorted.len(),
                nearest@ == sorted@.take(m as int),
            decreases k - m,
        {
            nearest.push(sorted[m]);
            m += 1;
            assert(nearest@ =~= sorted@.take(m as int));
        }
        let r: Double = numbers.add_up(&nearest);
        assert(is_sorted_copy(distances_to(*numbers, shares@, targets@[0]), sorted@));
        return r;
    }
    let mut all: Vec<Double> = Vec::new();
    let mut i: usize = 0;
    while i < n
        invariant
            i <= n,
            n == shares.len(),
            all.len() == i,
            forall|j: int| 0 <= j < i ==> #[trigger] all[j] == effective(shares[j]),
        decreases n - i,
    {
        all.push(effective_share(shares[i]));
        i += 1;
    }
    assert(all@ =~= effective_shares(shares@));
    let sorted: Vec<Double> = sort_doubles(&all);
    assert(is_sorted_copy(effective_shares(shares@), sorted@));
    if k == n {
        let mut pairs: Vec<Double> = Vec::new();
        let mut m: usize = 0;
        while m < k
            invariant
                m <= k,
                k == targets.len(),
                k == sorted.len(),
                numbers.valid(),
                pairs.len() == m,
                forall|j: int|
                    0 <= j < m ==> #[trigger] pairs[j] == distance(*numbers, sorted[j], targets[j]),
            decreases k - m,
        {
            pairs.push(numbers.minus(sorted[m], targets[m]).abs());
            m += 1;
        }
        assert(pairs@ =~= pair_distances(*numbers, sorted@, targets@));
        return numbers.add_up(&pairs);
    }
    assign(numbers, &sorted, targets)
}

/// The distance of two integers is how far they lie apart, whichever is larger,
/// where an integer and its opposite have the same magnitude.
pub proof fn distances_are_gaps<F: Fn(Op, Double, Double) -> Double>(
    numbers: Arithmetic<F>,
    a: int,
    b: int,
)
    requires
        numbers.counts(),
        -double::WHOLE <= b <= a <= double::WHOLE,
        a - b <= double::WHOLE,
        numbers.integer(b - a).magnitude_of() == numbers.integer(a - b).magnitude_of(),
    ensures
        distance(numbers, numbers.integer(a), numbers.integer(b)) == numbers.integer(a - b),
        distance(numbers, numbers.integer(b), numbers.integer(a)) == numbers.integer(a - b),
{
    numbers.whole_results(a, b);
    numbers.whole_results(b, a);
    numbers.whole_results(0, a - b);
}

} // verus!
