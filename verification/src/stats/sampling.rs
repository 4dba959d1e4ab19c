//! The chain positions that a thinned output keeps.

use vstd::arithmetic::div_mod::{lemma_fundamental_div_mod, lemma_fundamental_div_mod_converse};
use vstd::prelude::*;

verus! {

/// The multiples of `interval` from `start` to `end`, in ascending order.
pub open spec fn sampled(start: int, end: int, interval: int) -> Seq<int>
    decreases end - start + 1,
{
    if start > end {
        Seq::empty()
    } else if end % interval == 0 {
        sampled(start, end - 1, interval).push(end)
    } else {
        sampled(start, end - 1, interval)
    }
}

/// Extending the range past no further multiple keeps the samples.
proof fn sampled_unchanged(start: int, mid: int, end: int, interval: int)
    requires
        mid <= end,
        forall|x: int| mid < x <= end && start <= x ==> #[trigger] (x % interval) != 0,
    ensures
        sampled(start, end, interval) == sampled(start, mid, interval),
    decreases end - mid,
{
    if mid < end {
        sampled_unchanged(start, mid, end - 1, interval);
        if start <= end {
            assert(end % interval != 0);
        }
    }
}

/// The samples of a range are those of its two parts.
pub proof fn sampled_splits(start: int, mid: int, end: int, interval: int)
    requires
        start <= mid + 1,
        mid <= end,
    ensures
        sampled(start, end, interval) == sampled(start, mid, interval) + sampled(
            mid + 1,
            end,
            interval,
        ),
    decreases end - mid,
{
    if mid == end {
        assert(sampled(start, mid, interval) + sampled(mid + 1, end, interval) =~= sampled(
            start,
            mid,
            interval,
        ));
    } else {
        sampled_splits(start, mid, end - 1, interval);
        assert(sampled(start, end, interval) =~= sampled(start, mid, interval) + sampled(
            mid + 1,
            end,
            interval,
        ));
    }
}

/// The samples are the multiples of the interval in the range, in order.
pub proof fn sampled_are_the_multiples(start: int, end: int, interval: int)
    ensures
        forall|x: int|
            #![trigger sampled(start, end, interval).contains(x)]
            sampled(start, end, interval).contains(x) <==> start <= x <= end && x % interval == 0,
        forall|i: int, j: int|
            0 <= i < j < sampled(start, end, interval).len() ==> sampled(start, end, interval)[i]
                < sampled(start, end, interval)[j],
    decreases end - start + 1,
{
    if start <= end {
        sampled_are_the_multiples(start, end - 1, interval);
        let small = sampled(start, end - 1, interval);
        let large = sampled(start, end, interval);
        if end % interval == 0 {
            assert forall|x: int| #[trigger] large.contains(x) <==> start <= x <= end && x
                % interval == 0 by {
                crate::vectors::contains_pushed(small, end, x);
            }
            assert forall|i: int, j: int| 0 <= i < j < large.len() implies large[i] < large[j] by {
                assert(small.contains(small[i]));
                if j < small.len() {
                    assert(small[i] < small[j]);
                }
            }
        }
    }
}

/// Every position is a sample where none is left out.
pub proof fn every_position_counts(start: int, end: int)
    requires
        start <= end + 1,
    ensures
        sampled(start, end, 1).len() == end - start + 1,
    decreases end - start + 1,
{
    if start <= end {
        every_position_counts(start, end - 1);
    }
}

/// The numbers strictly between two neighboring multiples are no multiples.
proof fn no_multiple_between(m: int, interval: int)
    requires
        interval > 0,
        m % interval == 0,
    ensures
        (m + interval) % interval == 0,
        forall|x: int| m < x < m + interval ==> #[trigger] (x % interval) != 0,
{
    lemma_fundamental_div_mod(m, interval);
    let q = m / interval;
    assert((q + 1) * interval == q * interval + interval) by (nonlinear_arith);
    assert(interval * q == q * interval) by (nonlinear_arith);
    lemma_fundamental_div_mod_converse(m + interval, interval, q + 1, 0);
    assert forall|x: int| m < x < m + interval implies #[trigger] (x % interval) != 0 by {
        lemma_fundamental_div_mod_converse(x, interval, q, x - m);
    }
}

/// The first multiple of the interval from `start` on.
pub open spec fn first_sample(start: int, interval: int) -> int {
    start + (interval - start % interval) % interval
}

proof fn first_sample_is_first(start: int, interval: int)
    requires
        interval > 0,
        start >= 0,
    ensures
        start <= first_sample(start, interval) < start + interval,
        first_sample(start, interval) % interval == 0,
        forall|x: int| start <= x < first_sample(start, interval) ==> #[trigger] (x % interval)
            != 0,
{
    lemma_fundamental_div_mod(start, interval);
    let q = start / interval;
    let r = start % interval;
    assert(interval * q == q * interval) by (nonlinear_arith);
    assert((q + 1) * interval == q * interval + interval) by (nonlinear_arith);
    if r == 0 {
        lemma_fundamental_div_mod_converse(interval, interval, 1, 0);
    } else {
        vstd::arithmetic::div_mod::lemma_small_mod((interval - r) as nat, interval as nat);
        lemma_fundamental_div_mod_converse(start + (interval - r), interval, q + 1, 0);
        assert forall|x: int| start <= x < first_sample(start, interval) implies #[trigger] (x
            % interval) != 0 by {
            lemma_fundamental_div_mod_converse(x, interval, q, r + (x - start));
        }
    }
}

/// The first multiple of `interval` from `start` to `end`, if there is one.
fn first_step(start: u64, end: u64, interval: u64) -> (r: Option<u64>)
    requires
        interval > 0,
    ensures
        match r {
            Some(f) => f == first_sample(start as int, interval as int) && f <= end,
            None => first_sample(start as int, interval as int) > end,
        },
{
    proof {
        first_sample_is_first(start as int, interval as int);
    }
    let offset: u64 = (interval - start % interval) % interval;
    match start.checked_add(offset) {
        Some(f) => if f <= end {
            Some(f)
        } else {
            None
        },
        None => None,
    }
}

/// The multiples of `interval` from `start` to `end`.
pub fn sampled_steps(start: u64, end: u64, interval: u64) -> (r: Vec<u64>)
    requires
        interval > 0,
    ensures
        r.len() == sampled(start as int, end as int, interval as int).len(),
        forall|i: int|
            0 <= i < r.len() ==> (#[trigger] r[i]) == sampled(
                start as int,
                end as int,
                interval as int,
            )[i],
{
    let mut r: Vec<u64> = Vec::new();
    let ghost s = start as int;
    let ghost k = interval as int;
    proof {
        first_sample_is_first(s, k);
    }
    let mut next: u64 = match first_step(start, end, interval) {
        Some(f) => f,
        None => {
            proof {
                if s <= end {
                    sampled_unchanged(s, s - 1, end as int, k);
                }
            }
            return r;
        },
    };
    proof {
        sampled_unchanged(s, s - 1, next - 1, k);
    }
    loop
        invariant_except_break
            k == interval > 0,
            s <= next <= end,
            next as int % k == 0,
            r.len() == sampled(s, next - 1, k).len(),
            forall|i: int| 0 <= i < r.len() ==> (#[trigger] r[i]) == sampled(s, next - 1, k)[i],
        ensures
            r.len() == sampled(s, end as int, k).len(),
            forall|i: int| 0 <= i < r.len() ==> (#[trigger] r[i]) == sampled(s, end as int, k)[i],
        decreases end - next,
    {
        r.push(next);
        proof {
            no_multiple_between(next as int, k);
            assert(sampled(s, next as int, k) == sampled(s, next - 1, k).push(next as int));
            if next + k <= end {
                sampled_unchanged(s, next as int, next + k - 1, k);
            } else {
                sampled_unchanged(s, next as int, end as int, k);
            }
        }
        match next.checked_add(interval) {
            Some(n) => {
                if n > end {
                    break;
                }
                next = n;
            },
            None => {
                break;
            },
        }
    }
    r
}

proof fn sample_count_of(start: int, end: int, interval: int)
    requires
        interval > 0,
        start >= 0,
        first_sample(start, interval) <= end,
    ensures
        sampled(start, end, interval).len() == 1 + (end - first_sample(start, interval)) / interval,
    decreases end - first_sample(start, interval),
{
    let f = first_sample(start, interval);
    first_sample_is_first(start, interval);
    let q = (end - f) / interval;
    lemma_fundamental_div_mod(end - f, interval);
    if end - f < interval {
        lemma_fundamental_div_mod_converse(end - f, interval, 0, end - f);
        no_multiple_between(f, interval);
        sampled_unchanged(start, f, end, interval);
        sampled_unchanged(start, start - 1, f - 1, interval);
    } else {
        sample_count_of(start, end - interval, interval);
        assert((q - 1) * interval == q * interval - interval) by (nonlinear_arith);
        assert(interval * q == q * interval) by (nonlinear_arith);
        lemma_fundamental_div_mod_converse(
            end - interval - f,
            interval,
            q - 1,
            (end - f) % interval,
        );
        sampled_splits(start, end - interval, end, interval);
        one_sample_per_interval(end - interval + 1, interval);
    }
}

proof fn one_sample_per_interval(start: int, interval: int)
    requires
        interval > 0,
        start >= 0,
    ensures
        sampled(start, start + interval - 1, interval).len() == 1,
{
    let f = first_sample(start, interval);
    first_sample_is_first(start, interval);
    no_multiple_between(f, interval);
    sampled_unchanged(start, f, start + interval - 1, interval);
    sampled_unchanged(start, start - 1, f - 1, interval);
}

/// The number of multiples of `interval` from `start` to `end`.
pub fn sampled_step_count(start: u64, end: u64, interval: u64) -> (r: u64)
    requires
        interval > 0,
        !(start == 0 && end == u64::MAX && interval == 1),
    ensures
        r == sampled(start as int, end as int, interval as int).len(),
{
    proof {
        first_sample_is_first(start as int, interval as int);
    }
    match first_step(start, end, interval) {
        Some(first) => {
            proof {
                sample_count_of(start as int, end as int, interval as int);
                assert((end - first) / interval as int <= end - first) by (nonlinear_arith)
                    requires
                        interval >= 1,
                        end >= first,
                ;
                assert(interval > 1 ==> (end - first) / interval as int <= (end - first) / 2)
                    by (nonlinear_arith)
                    requires
                        interval >= 1,
                        end >= first,
                ;
            }
            1 + (end - first) / interval
        },
        None => {
            proof {
                if start <= end {
                    sampled_unchanged(start as int, start - 1, end as int, interval as int);
                }
            }
            0
        },
    }
}

} // verus!
