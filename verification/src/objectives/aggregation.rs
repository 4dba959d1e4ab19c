//! Aggregates of scores.

use vstd::prelude::*;
use crate::columns;
use crate::double;
use crate::double::{Arithmetic, Double, Op};

verus! {

/// How scores are combined into one.
#[derive(Clone, Copy, Debug, PartialEq, Eq, Structural)]
pub enum Aggregation {
    Mean,
    Min,
    Sum,
}

/// The aggregate that a name stands for.
pub open spec fn aggregation_named(name: Seq<char>) -> Option<Aggregation> {
    if name == "mean"@ {
        Some(Aggregation::Mean)
    } else if name == "min"@ {
        Some(Aggregation::Min)
    } else if name == "sum"@ {
        Some(Aggregation::Sum)
    } else {
        None
    }
}

/// The smallest of the values, or infinity; values that are no numbers are
/// passed over.
pub open spec fn least(values: Seq<Double>) -> Double
    decreases values.len(),
{
    if values.len() == 0 {
        double::infinity()
    } else {
        let before = least(values.drop_last());
        if values.last().below(before) {
            values.last()
        } else {
            before
        }
    }
}

/// No value is below the least one, which is infinity or one of the values.
pub proof fn least_is_a_lower_bound(values: Seq<Double>)
    ensures
        !least(values).nan(),
        forall|i: int| 0 <= i < values.len() ==> !(#[trigger] values[i]).below(least(values)),
        least(values) == double::infinity() || values.contains(least(values)),
    decreases values.len(),
{
    if values.len() > 0 {
        let init = values.drop_last();
        least_is_a_lower_bound(init);
        assert forall|i: int| 0 <= i < values.len() implies !(#[trigger] values[i]).below(
            least(values),
        ) by {
            if i < init.len() {
                assert(values[i] == init[i]);
            }
        }
        if init.contains(least(init)) {
            let i = choose|i: int| 0 <= i < init.len() && init[i] == least(init);
            assert(values[i] == least(init));
        }
        assert(values.contains(values.last()));
    }
}

impl Aggregation {
    /// Reads an aggregate by its name.
    pub fn from_str(s: &str) -> (r: Result<Aggregation, String>)
        ensures
            match r {
                Ok(a) => aggregation_named(s@) == Some(a),
                Err(e) => aggregation_named(s@) is None && e@ == "Unknown aggregation '"@ + s@
                    + "'. Use 'mean', 'min', or 'sum'."@,
            },
    {
        if columns::str_eq(s, "mean") {
            Ok(Aggregation::Mean)
        } else if columns::str_eq(s, "min") {
            Ok(Aggregation::Min)
        } else if columns::str_eq(s, "sum") {
            Ok(Aggregation::Sum)
        } else {
            let mut out: String = "Unknown aggregation '".to_string();
            out.append(s);
            out.append("'. Use 'mean', 'min', or 'sum'.");
            Err(out)
        }
    }

    /// The aggregate of values.
    pub open spec fn of<F: Fn(Op, Double, Double) -> Double>(
        self,
        numbers: Arithmetic<F>,
        values: Seq<Double>,
    ) -> Double {
        match self {
            Aggregation::Mean => numbers.quotient(
                numbers.total(values),
                numbers.integer(values.len() as int),
            ),
            Aggregation::Min => least(values),
            Aggregation::Sum => numbers.total(values),
        }
    }

    /// Combines values.
    pub fn apply<F: Fn(Op, Double, Double) -> Double>(
        self,
        numbers: &Arithmetic<F>,
        values: &Vec<Double>,
    ) -> (r: Double)
        requires
            numbers.valid(),
            values.len() <= i64::MAX,
        ensures
            r == self.of(*numbers, values@),
    {
        match self {
            Aggregation::Mean => numbers.over(
                numbers.add_up(values),
                numbers.of_int(values.len() as i64),
            ),
            Aggregation::Min => {
                let mut m: Double = double::infinity();
                let mut i: usize = 0;
                while i < values.len()
                    invariant
                        i <= values.len(),
                        m == least(values@.take(i as int)),
                    decreases values.len() - i,
                {
                    if values[i].lt(m) {
                        m = values[i];
                    }
                    i += 1;
                    assert(values@.take(i as int).drop_last() =~= values@.take(i - 1));
                }
                assert(values@.take(i as int) =~= values@);
                m
            },
            Aggregation::Sum => numbers.add_up(values),
        }
    }
}

/// Equal whole scores: their mean and their least are that score, and their sum
/// is as many times it.
pub proof fn equal_scores_aggregate_to_themselves<F: Fn(Op, Double, Double) -> Double>(
    numbers: Arithmetic<F>,
    values: Seq<Double>,
    score: int,
)
    requires
        numbers.counts(),
        0 < values.len(),
        0 <= score,
        score <= double::WHOLE,
        values.len() <= double::WHOLE,
        score * values.len() <= double::WHOLE,
        forall|i: int| 0 <= i < values.len() ==> #[trigger] values[i] == numbers.integer(score),
    ensures
        Aggregation::Mean.of(numbers, values) == numbers.integer(score),
        Aggregation::Min.of(numbers, values) == numbers.integer(score),
        Aggregation::Sum.of(numbers, values) == numbers.integer(score * values.len()),
{
    copies_add_up(values.len(), score);
    whole_scores_add_up(numbers, values, Seq::new(values.len(), |i: int| score));
    numbers.whole_results(score, values.len() as int);
    least_is_a_lower_bound(values);
    assert(values[0] == numbers.integer(score));
    if values.contains(least(values)) {
        let i = choose|i: int| 0 <= i < values.len() && values[i] == least(values);
        assert(values[i] == numbers.integer(score));
    }
}

/// Whole numbers added up.
pub open spec fn whole_sum(values: Seq<int>) -> int {
    values.fold_left(0, |x: int, y: int| x + y)
}

proof fn copies_add_up(n: nat, score: int)
    ensures
        whole_sum(Seq::new(n, |i: int| score)) == score * n,
    decreases n,
{
    let values = Seq::new(n, |i: int| score);
    if n > 0 {
        assert(values.drop_last() =~= Seq::new((n - 1) as nat, |i: int| score));
        copies_add_up((n - 1) as nat, score);
        assert(score * n == score * (n - 1) + score) by (nonlinear_arith);
    } else {
        assert(score * n == 0) by (nonlinear_arith)
            requires
                n == 0,
        ;
    }
}

/// Whole scores add up to their sum, and their mean is the sum over their
/// number.
pub proof fn whole_scores_add_up<F: Fn(Op, Double, Double) -> Double>(
    numbers: Arithmetic<F>,
    values: Seq<Double>,
    wholes: Seq<int>,
)
    requires
        numbers.counts(),
        values.len() == wholes.len(),
        forall|i: int|
            0 <= i < values.len() ==> #[trigger] values[i] == numbers.integer(wholes[i])
                && wholes[i] >= 0,
        whole_sum(wholes) <= double::WHOLE,
    ensures
        0 <= whole_sum(wholes),
        Aggregation::Sum.of(numbers, values) == numbers.integer(whole_sum(wholes)),
        Aggregation::Mean.of(numbers, values) == numbers.quotient(
            numbers.integer(whole_sum(wholes)),
            numbers.integer(wholes.len() as int),
        ),
    decreases values.len(),
{
    if values.len() == 0 {
        numbers.whole_results(0, 0);
    } else {
        let fewer = values.drop_last();
        let rest = wholes.drop_last();
        assert(whole_sum(wholes) == whole_sum(rest) + wholes.last());
        assert forall|i: int| 0 <= i < fewer.len() implies #[trigger] fewer[i] == numbers.integer(
            rest[i],
        ) && rest[i] >= 0 by {
            assert(fewer[i] == values[i]);
        }
        assert(values[values.len() - 1] == numbers.integer(wholes.last()));
        whole_scores_add_up(numbers, fewer, rest);
        numbers.whole_results(whole_sum(rest), wholes.last());
    }
}

} // verus!
