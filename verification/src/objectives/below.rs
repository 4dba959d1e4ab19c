//! The highest share below a limit.

use vstd::prelude::*;
use crate::double;
use crate::double::{Arithmetic, Double, Op};
use crate::objectives::counts;

verus! {

/// Whether a share counts as one below the limit.
pub open spec fn is_below(share: Double, limit: Double) -> bool {
    share.below(limit) && double::neg_infinity().below(share)
}

/// Whether a district holds the highest share below the limit; without a share
/// below the limit no district does, and the share is zero.
pub open spec fn best_below(
    shares: Seq<Double>,
    limit: Double,
    dist: Option<usize>,
    best: Double,
) -> bool {
    match dist {
        Some(d) => {
            &&& d < shares.len()
            &&& is_below(shares[d as int], limit)
            &&& best == shares[d as int]
            &&& forall|e: int|
                0 <= e < shares.len() && is_below(#[trigger] shares[e], limit)
                    ==> shares[e].at_most(best)
        },
        None => best == double::zero() && forall|e: int|
            0 <= e < shares.len() ==> !is_below(#[trigger] shares[e], limit),
    }
}

/// Whether a district is the first that holds the highest share below the
/// limit.
pub open spec fn first_below(
    shares: Seq<Double>,
    limit: Double,
    dist: Option<usize>,
    best: Double,
) -> bool {
    &&& best_below(shares, limit, dist, best)
    &&& dist matches Some(d) ==> forall|e: int|
        0 <= e < d && is_below(#[trigger] shares[e], limit) ==> shares[e].below(best)
}

/// One share is the first highest below the limit.
pub proof fn first_below_is_unique(
    shares: Seq<Double>,
    limit: Double,
    d1: Option<usize>,
    best1: Double,
    d2: Option<usize>,
    best2: Double,
)
    requires
        first_below(shares, limit, d1, best1),
        first_below(shares, limit, d2, best2),
    ensures
        d1 == d2,
        best1 == best2,
{
    if let Some(x) = d1 {
        assert(is_below(shares[x as int], limit));
        if let Some(y) = d2 {
            assert(is_below(shares[y as int], limit));
            assert(shares[x as int].at_most(best2));
            assert(shares[y as int].at_most(best1));
            if x < y {
                assert(shares[x as int].below(best2));
            }
            if y < x {
                assert(shares[y as int].below(best1));
            }
        }
    } else if let Some(y) = d2 {
        assert(is_below(shares[y as int], limit));
    }
}

/// Where equal shares are equal bit by bit, so that no two are zeros of
/// different signs, every district that holds the highest share below the limit
/// holds the same number.
pub proof fn best_below_is_the_first(
    shares: Seq<Double>,
    limit: Double,
    d1: Option<usize>,
    best1: Double,
    d2: Option<usize>,
    best2: Double,
)
    requires
        best_below(shares, limit, d1, best1),
        best_below(shares, limit, d2, best2),
        zeros_agree(shares),
    ensures
        best1 == best2,
{
    if let Some(x) = d1 {
        assert(is_below(shares[x as int], limit));
        if let Some(y) = d2 {
            assert(is_below(shares[y as int], limit));
            assert(shares[x as int].at_most(best2));
            assert(shares[y as int].at_most(best1));
            assert(shares[x as int].same_number(shares[y as int]));
        }
    } else if let Some(y) = d2 {
        assert(is_below(shares[y as int], limit));
    }
}

proof fn first_bounded(shares: Seq<Double>, limit: Double, d: int, best: Double, k: int) -> (e: int)
    requires
        0 <= k <= d < shares.len(),
        shares[d].same_number(best),
        is_below(shares[d], limit),
        forall|e: int|
            0 <= e < k && is_below(#[trigger] shares[e], limit) ==> !shares[e].same_number(best),
    ensures
        k <= e <= d,
        shares[e].same_number(best),
        is_below(shares[e], limit),
        forall|i: int|
            0 <= i < e && is_below(#[trigger] shares[i], limit) ==> !shares[i].same_number(best),
    decreases d - k,
{
    if shares[k].same_number(best) && is_below(shares[k], limit) {
        k
    } else {
        first_bounded(shares, limit, d, best, k + 1)
    }
}

/// Where some district holds the highest share below the limit, one is the
/// first.
pub proof fn first_exists(
    shares: Seq<Double>,
    limit: Double,
    dist: Option<usize>,
    best: Double,
) -> (r: (Option<usize>, Double))
    requires
        best_below(shares, limit, dist, best),
    ensures
        first_below(shares, limit, r.0, r.1),
{
    match dist {
        None => (dist, best),
        Some(d) => {
            let e = first_bounded(shares, limit, d as int, best, 0);
            assert forall|i: int|
                0 <= i < shares.len() && is_below(#[trigger] shares[i], limit) implies shares[i].at_most(
                shares[e],
            ) by {
                assert(shares[i].at_most(best));
            }
            assert forall|i: int|
                0 <= i < e && is_below(#[trigger] shares[i], limit) implies shares[i].below(
                shares[e],
            ) by {
                assert(shares[i].at_most(best));
                assert(!shares[i].same_number(best));
            }
            (Some(e as usize), shares[e])
        },
    }
}

/// Whether equal shares are equal bit by bit.
pub open spec fn zeros_agree(shares: Seq<Double>) -> bool {
    forall|d: int, e: int|
        0 <= d < shares.len() && 0 <= e < shares.len() && (#[trigger] shares[d]).same_number(
            #[trigger] shares[e],
        ) ==> shares[d] == shares[e]
}

/// Whether a candidate holds the highest share below the limit among some
/// districts; without one it is negative infinity.
spec fn leads_among(
    shares: Seq<Double>,
    limit: Double,
    dist: Option<usize>,
    best: Double,
    among: spec_fn(int) -> bool,
) -> bool {
    match dist {
        Some(d) => {
            &&& d < shares.len()
            &&& is_below(shares[d as int], limit)
            &&& best == shares[d as int]
            &&& forall|e: int|
                0 <= e < shares.len() && among(e) && is_below(#[trigger] shares[e], limit)
                    ==> shares[e].at_most(best)
        },
        None => best == double::neg_infinity() && forall|e: int|
            0 <= e < shares.len() && among(e) ==> !is_below(#[trigger] shares[e], limit),
    }
}

fn share_below(share: Double, limit: Double) -> (r: Double)
    ensures
        r == (if share.below(limit) {
            share
        } else {
            double::neg_infinity()
        }),
{
    if share.lt(limit) {
        share
    } else {
        double::neg_infinity()
    }
}

/// Whether a scan looks at a district.
spec fn kept(skip: Option<(usize, usize)>, e: int) -> bool {
    match skip {
        Some((a, b)) => e != a && e != b,
        None => true,
    }
}

/// Scans the districts, but for two, for the highest share below the limit.
fn scan<F: Fn(Op, Double, Double) -> Double>(
    numbers: &Arithmetic<F>,
    parts: &Vec<i64>,
    wholes: &Vec<i64>,
    limit: Double,
    skip: Option<(usize, usize)>,
) -> (r: (Option<usize>, Double))
    requires
        numbers.valid(),
        parts.len() == wholes.len(),
    ensures
        leads_among(
            counts::shares_of(*numbers, counts::ints(parts@), counts::ints(wholes@)),
            limit,
            r.0,
            r.1,
            |e: int| kept(skip, e),
        ),
        r.0 matches Some(d) ==> kept(skip, d as int),
        r.0 matches Some(d) ==> forall|e: int|
            0 <= e < d && kept(skip, e) && is_below(
                #[trigger] counts::shares_of(
                    *numbers,
                    counts::ints(parts@),
                    counts::ints(wholes@),
                )[e],
                limit,
            ) ==> counts::shares_of(*numbers, counts::ints(parts@), counts::ints(wholes@))[e].below(
                r.1,
            ),
{
    let ghost shares = counts::shares_of(*numbers, counts::ints(parts@), counts::ints(wholes@));
    let mut dist: Option<usize> = None;
    let mut best: Double = double::neg_infinity();
    let mut d: usize = 0;
    while d < parts.len()
        invariant
            d <= parts.len(),
            numbers.valid(),
            parts.len() == wholes.len(),
            shares == counts::shares_of(*numbers, counts::ints(parts@), counts::ints(wholes@)),
            leads_among(
                shares,
                limit,
                dist,
                best,
                |e: int| e < d && kept(skip, e),
            ),
            dist matches Some(h) ==> kept(skip, h as int),
            dist matches Some(h) ==> h < d && forall|e: int|
                0 <= e < h && kept(skip, e) && is_below(#[trigger] shares[e], limit)
                    ==> shares[e].below(best),
        decreases parts.len() - d,
    {
        let skipped: bool = match skip {
            Some((a, b)) => d == a || d == b,
            None => false,
        };
        if !skipped {
            let s: Double = counts::district_share(numbers, parts[d], wholes[d]);
            assert(s == shares[d as int]);
            if s.lt(limit) && s.gt(best) {
                best = s;
                dist = Some(d);
            }
        }
        d += 1;
    }
    (dist, best)
}

fn settled(dist: Option<usize>, best: Double) -> (r: (Option<usize>, Double))
    ensures
        r == (match dist {
            Some(d) => (dist, best),
            None => (None, double::zero()),
        }),
{
    match dist {
        Some(d) => (Some(d), best),
        None => (None, double::zero()),
    }
}

/// Finds the highest share below the limit.
pub fn find_best_below<F: Fn(Op, Double, Double) -> Double>(
    numbers: &Arithmetic<F>,
    parts: &Vec<i64>,
    wholes: &Vec<i64>,
    limit: Double,
) -> (r: (Option<usize>, Double))
    requires
        numbers.valid(),
        parts.len() == wholes.len(),
    ensures
        first_below(
            counts::shares_of(*numbers, counts::ints(parts@), counts::ints(wholes@)),
            limit,
            r.0,
            r.1,
        ),
{
    let (dist, best): (Option<usize>, Double) = scan(numbers, parts, wholes, limit, None);
    settled(dist, best)
}

/// Finds the highest share below the limit after the shares of two districts
/// changed: the known one stands unless it belongs to one of the two, and then
/// the others are scanned.
pub fn update_best_below<F: Fn(Op, Double, Double) -> Double>(
    numbers: &Arithmetic<F>,
    parts: &Vec<i64>,
    wholes: &Vec<i64>,
    limit: Double,
    cached_dist: Option<usize>,
    cached_share: Double,
    a: usize,
    b: usize,
    new_a: Double,
    new_b: Double,
) -> (r: (Option<usize>, Double))
    requires
        numbers.valid(),
        parts.len() == wholes.len(),
        a < parts.len(),
        b < parts.len(),
        a != b,
        best_below(
            counts::shares_of(*numbers, counts::ints(parts@), counts::ints(wholes@)),
            limit,
            cached_dist,
            cached_share,
        ),
    ensures
        best_below(
            counts::shares_of(*numbers, counts::ints(parts@), counts::ints(wholes@)).update(
                a as int,
                new_a,
            ).update(b as int, new_b),
            limit,
            r.0,
            r.1,
        ),
{
    let ghost before = counts::shares_of(*numbers, counts::ints(parts@), counts::ints(wholes@));
    let ghost after = before.update(a as int, new_a).update(b as int, new_b);
    let a_below: Double = share_below(new_a, limit);
    let b_below: Double = share_below(new_b, limit);
    let unchanged: bool = match cached_dist {
        Some(holder) => holder != a && holder != b,
        None => false,
    };
    let mut dist: Option<usize> = cached_dist;
    let mut share: Double = cached_share;
    if !unchanged {
        let (d, s): (Option<usize>, Double) = scan(numbers, parts, wholes, limit, Some((a, b)));
        dist = d;
        share = s;
    }
    let ghost others = |e: int| e != a && e != b;
    proof {
        assert forall|e: int| 0 <= e < after.len() && others(e) implies #[trigger] after[e]
            == before[e] by {}
        let skip = Some((a, b));
        let scanned = |e: int| kept(skip, e);
        assert(forall|e: int| #[trigger] scanned(e) == others(e));
        if unchanged {
            assert forall|e: int|
                0 <= e < after.len() && others(e) && is_below(
                    #[trigger] after[e],
                    limit,
                ) implies after[e].at_most(share) by {
                assert(after[e] == before[e]);
            }
        } else {
            match dist {
                Some(d) => {
                    assert(others(d as int));
                    assert forall|e: int|
                        0 <= e < after.len() && others(e) && is_below(
                            #[trigger] after[e],
                            limit,
                        ) implies after[e].at_most(share) by {
                        assert(scanned(e));
                        assert(after[e] == before[e]);
                    }
                },
                None => {
                    assert forall|e: int|
                        0 <= e < after.len() && others(e) implies !is_below(
                        #[trigger] after[e],
                        limit,
                    ) by {
                        assert(scanned(e));
                        assert(after[e] == before[e]);
                    }
                },
            }
        }
        assert(leads_among(after, limit, dist, share, others));
    }
    if a_below.gt(share) {
        share = a_below;
        dist = Some(a);
    }
    if b_below.gt(share) {
        share = b_below;
        dist = Some(b);
    }
    settled(dist, share)
}

} // verus!
