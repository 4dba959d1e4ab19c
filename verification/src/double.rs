//! Double-precision numbers carried by their IEEE 754 bit patterns.
//!
//! Comparisons are decided on the bit patterns. Arithmetic is supplied by the
//! caller as one function from an operation and two operands to a result.

use vstd::prelude::*;

verus! {

/// The sign bit of a double.
pub const SIGN: u64 = 0x8000_0000_0000_0000;

/// The magnitude bits of an infinity; larger magnitudes are NaNs.
pub const INF_MAGNITUDE: u64 = 0x7ff0_0000_0000_0000;

/// Whole numbers up to this are doubles: two to the power of 53.
pub const WHOLE: i64 = 0x20_0000_0000_0000;

/// A double-precision number, held as its bit pattern.
#[derive(Clone, Copy, Debug, PartialEq, Eq, Structural)]
pub struct Double {
    pub bits: u64,
}

#[verifier::allow_in_spec]
pub fn zero() -> Double
    returns
        (Double { bits: 0 }),
{
    Double { bits: 0 }
}

#[verifier::allow_in_spec]
pub fn half() -> Double
    returns
        (Double { bits: 0x3fe0_0000_0000_0000 }),
{
    Double { bits: 0x3fe0_0000_0000_0000 }
}

/// The largest double below one.
#[verifier::allow_in_spec]
pub fn one_below() -> Double
    returns
        (Double { bits: 0x3fef_ffff_ffff_ffff }),
{
    Double { bits: 0x3fef_ffff_ffff_ffff }
}

#[verifier::allow_in_spec]
pub fn one() -> Double
    returns
        (Double { bits: 0x3ff0_0000_0000_0000 }),
{
    Double { bits: 0x3ff0_0000_0000_0000 }
}

#[verifier::allow_in_spec]
pub fn two() -> Double
    returns
        (Double { bits: 0x4000_0000_0000_0000 }),
{
    Double { bits: 0x4000_0000_0000_0000 }
}

#[verifier::allow_in_spec]
pub fn four() -> Double
    returns
        (Double { bits: 0x4010_0000_0000_0000 }),
{
    Double { bits: 0x4010_0000_0000_0000 }
}

/// The double nearest to the circle constant.
#[verifier::allow_in_spec]
pub fn pi() -> Double
    returns
        (Double { bits: 0x4009_21fb_5444_2d18 }),
{
    Double { bits: 0x4009_21fb_5444_2d18 }
}

#[verifier::allow_in_spec]
pub fn infinity() -> Double
    returns
        (Double { bits: 0x7ff0_0000_0000_0000 }),
{
    Double { bits: 0x7ff0_0000_0000_0000 }
}

#[verifier::allow_in_spec]
pub fn neg_infinity() -> Double
    returns
        (Double { bits: 0xfff0_0000_0000_0000 }),
{
    Double { bits: 0xfff0_0000_0000_0000 }
}

/// Two to the power of minus 53.
#[verifier::allow_in_spec]
pub fn unit_scale() -> Double
    returns
        (Double { bits: 0x3ca0_0000_0000_0000 }),
{
    Double { bits: 0x3ca0_0000_0000_0000 }
}

impl Double {
    /// Whether the sign bit is set.
    pub open spec fn negative(self) -> bool {
        self.bits >= SIGN
    }

    /// The bits below the sign bit.
    pub open spec fn magnitude(self) -> int {
        if self.bits >= SIGN {
            self.bits - SIGN
        } else {
            self.bits as int
        }
    }

    pub open spec fn nan(self) -> bool {
        self.magnitude() > INF_MAGNITUDE
    }

    pub open spec fn finite(self) -> bool {
        self.magnitude() < INF_MAGNITUDE
    }

    /// The position of a number that is not a NaN on the line: both zeros sit
    /// at 0, and a smaller number has a smaller position.
    pub open spec fn position(self) -> int {
        if self.negative() {
            -self.magnitude()
        } else {
            self.magnitude()
        }
    }

    /// The largest double below a positive one.
    pub open spec fn just_below(self) -> Double {
        Double { bits: (self.bits - 1) as u64 }
    }

    /// `self < other` as doubles compare: false where either is a NaN.
    pub open spec fn below(self, other: Double) -> bool {
        !self.nan() && !other.nan() && self.position() < other.position()
    }

    /// `self <= other` as doubles compare: false where either is a NaN.
    pub open spec fn at_most(self, other: Double) -> bool {
        !self.nan() && !other.nan() && self.position() <= other.position()
    }

    /// `self == other` as doubles compare: zeros agree, NaNs equal nothing.
    pub open spec fn same_number(self, other: Double) -> bool {
        !self.nan() && !other.nan() && self.position() == other.position()
    }

    fn magnitude_bits(self) -> (m: u64)
        ensures
            m == self.magnitude(),
    {
        if self.bits >= SIGN {
            self.bits - SIGN
        } else {
            self.bits
        }
    }

    pub fn is_nan(self) -> (r: bool)
        ensures
            r == self.nan(),
    {
        self.magnitude_bits() > INF_MAGNITUDE
    }

    pub fn is_finite(self) -> (r: bool)
        ensures
            r == self.finite(),
    {
        self.magnitude_bits() < INF_MAGNITUDE
    }

    /// A key that orders numbers other than NaNs as their positions do.
    pub fn key(self) -> (k: u64)
        requires
            !self.nan(),
        ensures
            k == SIGN + self.position(),
    {
        let m: u64 = self.magnitude_bits();
        if self.bits >= SIGN {
            SIGN - m
        } else {
            SIGN + m
        }
    }

    /// The place of a bit pattern in the total order of doubles, negative NaNs
    /// first and positive NaNs last, with the negative zero before the other.
    pub open spec fn total_position(self) -> int {
        if self.negative() {
            u64::MAX - self.bits
        } else {
            SIGN + self.bits
        }
    }

    pub fn total_key(self) -> (k: u64)
        ensures
            k == self.total_position(),
    {
        if self.bits >= SIGN {
            u64::MAX - self.bits
        } else {
            SIGN + self.bits
        }
    }

    pub fn lt(self, other: Double) -> (r: bool)
        ensures
            r == self.below(other),
    {
        !self.is_nan() && !other.is_nan() && self.key() < other.key()
    }

    pub fn gt(self, other: Double) -> (r: bool)
        ensures
            r == other.below(self),
    {
        other.lt(self)
    }

    pub fn le(self, other: Double) -> (r: bool)
        ensures
            r == self.at_most(other),
    {
        !self.is_nan() && !other.is_nan() && self.key() <= other.key()
    }

    pub fn ge(self, other: Double) -> (r: bool)
        ensures
            r == other.at_most(self),
    {
        other.le(self)
    }

    pub fn equals(self, other: Double) -> (r: bool)
        ensures
            r == self.same_number(other),
    {
        !self.is_nan() && !other.is_nan() && self.key() == other.key()
    }

    /// The number without its sign.
    pub open spec fn magnitude_of(self) -> Double {
        Double { bits: self.magnitude() as u64 }
    }

    pub fn abs(self) -> (r: Double)
        ensures
            r == self.magnitude_of(),
    {
        Double { bits: self.magnitude_bits() }
    }
}

/// What an [`Arithmetic`] is asked to compute from two operands.
#[derive(Clone, Copy, Debug, PartialEq, Eq, Structural)]
pub enum Op {
    Add,
    Sub,
    Mul,
    Div,
    /// The double nearest to the integer; the operands are ignored.
    OfInt(i64),
}

/// Double-precision arithmetic, supplied as one function.
#[derive(Clone, Copy)]
pub struct Arithmetic<F> {
    pub eval: F,
}

impl<F: Fn(Op, Double, Double) -> Double> Arithmetic<F> {
    /// The supplied function accepts every operation on every pair of operands
    /// and its result depends on them alone.
    pub open spec fn valid(&self) -> bool {
        &&& forall|op: Op, x: Double, y: Double| #[trigger] call_requires(self.eval, (op, x, y))
        &&& forall|op: Op, x: Double, y: Double, r: Double, s: Double|
            #[trigger] call_ensures(self.eval, (op, x, y), r) && #[trigger] call_ensures(
                self.eval,
                (op, x, y),
                s,
            ) ==> r == s
    }

    /// The result of an operation.
    pub open spec fn value(&self, op: Op, x: Double, y: Double) -> Double {
        choose|r: Double| call_ensures(self.eval, (op, x, y), r)
    }

    pub open spec fn sum(&self, x: Double, y: Double) -> Double {
        self.value(Op::Add, x, y)
    }

    pub open spec fn difference(&self, x: Double, y: Double) -> Double {
        self.value(Op::Sub, x, y)
    }

    pub open spec fn product(&self, x: Double, y: Double) -> Double {
        self.value(Op::Mul, x, y)
    }

    pub open spec fn quotient(&self, x: Double, y: Double) -> Double {
        self.value(Op::Div, x, y)
    }

    pub open spec fn integer(&self, n: int) -> Double {
        self.value(Op::OfInt(n as i64), zero(), zero())
    }

    /// Whether the arithmetic is exact on a scale: numbers on the scale stand
    /// for whole numbers, one number for each, and sums, differences and doubles
    /// up to the bound come out on the scale. Doubles have such scales: the
    /// multiples of a power of two up to two to the power of 53 of it.
    #[verifier::opaque]
    pub open spec fn exact_on(&self, scale: spec_fn(Double) -> Option<int>, bound: int) -> bool {
        &&& scale(zero()) == Some(0int)
        &&& forall|x: Double, y: Double|
            #![trigger scale(x), scale(y)]
            scale(x) is Some && scale(x) == scale(y) ==> x == y
        &&& forall|x: Double, y: Double|
            #![trigger self.sum(x, y)]
            scale(x) is Some && scale(y) is Some && -bound <= scale(x)->0 + scale(y)->0 <= bound
                ==> scale(self.sum(x, y)) == Some(scale(x)->0 + scale(y)->0)
        &&& forall|x: Double, y: Double|
            #![trigger self.difference(x, y)]
            scale(x) is Some && scale(y) is Some && -bound <= scale(x)->0 - scale(y)->0 <= bound
                ==> scale(self.difference(x, y)) == Some(scale(x)->0 - scale(y)->0)
        &&& forall|x: Double|
            #![trigger self.product(two(), x)]
            scale(x) is Some && -bound <= 2 * scale(x)->0 <= bound ==> scale(
                self.product(two(), x),
            ) == Some(2 * scale(x)->0)
    }

    /// Whether whole numbers come out exact: they are in order, and sums,
    /// differences and products of whole numbers are the whole numbers that they
    /// should be, up to two to the power of 53. Doubles have this.
    #[verifier::opaque]
    pub open spec fn counts(&self) -> bool {
        &&& self.integer(0) == zero()
        &&& self.integer(1) == one()
        &&& self.integer(2) == two()
        &&& forall|a: int, b: int|
            #![trigger self.integer(a), self.integer(b)]
            -WHOLE <= a < b <= WHOLE ==> self.integer(a).below(self.integer(b))
        &&& forall|a: int|
            #![trigger self.integer(a)]
            -WHOLE <= a <= WHOLE ==> self.integer(a).finite()
        &&& forall|a: int, b: int|
            #![trigger self.sum(self.integer(a), self.integer(b))]
            -WHOLE <= a <= WHOLE && -WHOLE <= b <= WHOLE && -WHOLE <= a + b <= WHOLE ==> self.sum(
                self.integer(a),
                self.integer(b),
            ) == self.integer(a + b)
        &&& forall|a: int, b: int|
            #![trigger self.difference(self.integer(a), self.integer(b))]
            -WHOLE <= a <= WHOLE && -WHOLE <= b <= WHOLE && -WHOLE <= a - b <= WHOLE
                ==> self.difference(self.integer(a), self.integer(b)) == self.integer(a - b)
        &&& forall|a: int, b: int|
            #![trigger self.product(self.integer(a), self.integer(b))]
            0 <= a <= WHOLE && 0 <= b <= WHOLE && a * b <= WHOLE ==> self.product(
                self.integer(a),
                self.integer(b),
            ) == self.integer(a * b)
        &&& forall|a: int, b: int|
            #![trigger self.quotient(self.integer(a * b), self.integer(b))]
            0 <= a <= WHOLE && 0 < b <= WHOLE && a * b <= WHOLE ==> self.quotient(
                self.integer(a * b),
                self.integer(b),
            ) == self.integer(a)
    }

    /// Whole numbers in order, and their sum, difference and product.
    pub proof fn whole_results(&self, a: int, b: int)
        requires
            self.counts(),
            -WHOLE <= a <= WHOLE,
            -WHOLE <= b <= WHOLE,
        ensures
            self.integer(0) == zero(),
            self.integer(1) == one(),
            self.integer(2) == two(),
            self.integer(a).finite(),
            self.integer(b).finite(),
            a < b <==> self.integer(a).below(self.integer(b)),
            a <= b <==> self.integer(a).at_most(self.integer(b)),
            -WHOLE <= a + b <= WHOLE ==> self.sum(self.integer(a), self.integer(b))
                == self.integer(a + b),
            -WHOLE <= a - b <= WHOLE ==> self.difference(self.integer(a), self.integer(b))
                == self.integer(a - b),
            0 <= a && 0 <= b && a * b <= WHOLE ==> self.product(self.integer(a), self.integer(b))
                == self.integer(a * b),
            0 <= a && 0 < b && a * b <= WHOLE ==> self.quotient(
                self.integer(a * b),
                self.integer(b),
            ) == self.integer(a),
    {
        reveal(Arithmetic::counts);
        if a == b {
        } else if a < b {
            assert(self.integer(a).below(self.integer(b)));
        } else {
            assert(self.integer(b).below(self.integer(a)));
        }
    }

    /// Whether operations keep the order of finite numbers: more added gives no
    /// less, more taken away gives no more, and so on for products with and
    /// quotients by what is positive. A number over itself is one. Doubles have
    /// this.
    #[verifier::opaque]
    pub open spec fn orderly(&self) -> bool {
        &&& forall|c: Double, x: Double, y: Double|
            #![trigger self.sum(c, x), self.sum(c, y)]
            c.finite() && x.finite() && y.finite() && x.at_most(y) ==> self.sum(c, x).at_most(
                self.sum(c, y),
            )
        &&& forall|c: Double, x: Double, y: Double|
            #![trigger self.difference(c, x), self.difference(c, y)]
            c.finite() && x.finite() && y.finite() && x.at_most(y) ==> self.difference(
                c,
                y,
            ).at_most(self.difference(c, x))
        &&& forall|c: Double, x: Double, y: Double|
            #![trigger self.difference(x, c), self.difference(y, c)]
            c.finite() && x.finite() && y.finite() && x.at_most(y) ==> self.difference(
                x,
                c,
            ).at_most(self.difference(y, c))
        &&& forall|c: Double, x: Double, y: Double|
            #![trigger self.product(c, x), self.product(c, y)]
            c.finite() && zero().at_most(c) && x.finite() && y.finite() && x.at_most(y)
                ==> self.product(c, x).at_most(self.product(c, y))
        &&& forall|t: Double, x: Double, y: Double|
            #![trigger self.quotient(x, t), self.quotient(y, t)]
            t.finite() && zero().below(t) && x.finite() && y.finite() && x.at_most(y)
                ==> self.quotient(x, t).at_most(self.quotient(y, t))
        &&& forall|x: Double, s: Double, t: Double|
            #![trigger self.quotient(x, s), self.quotient(x, t)]
            x.finite() && zero().at_most(x) && s.finite() && t.finite() && zero().below(s)
                && s.at_most(t) ==> self.quotient(x, t).at_most(self.quotient(x, s))
        &&& forall|t: Double|
            #![trigger self.quotient(t, t)]
            t.finite() && zero().below(t) ==> self.quotient(t, t) == one()
        &&& forall|t: Double|
            #![trigger self.quotient(zero(), t)]
            t.finite() && zero().below(t) ==> self.quotient(zero(), t) == zero()
        &&& forall|x: Double, t: Double|
            #![trigger self.quotient(x, t)]
            t.finite() && zero().at_most(x) && x.below(t) ==> self.quotient(x, t).below(one())
        &&& forall|x: Double|
            #![trigger self.difference(x, x)]
            x.finite() ==> self.difference(x, x) == zero()
        &&& forall|x: Double|
            #![trigger self.product(x, zero())]
            x.finite() && zero().below(x) ==> self.product(x, zero()) == zero()
        &&& forall|x: Double|
            #![trigger self.difference(x, zero())]
            x.finite() ==> self.difference(x, zero()) == x
        &&& forall|x: Double|
            #![trigger self.sum(x, zero())]
            x.finite() ==> self.sum(x, zero()).same_number(x)
        &&& forall|x: Double|
            #![trigger self.sum(x, zero())]
            x == zero() || (x.finite() && zero().below(x)) ==> self.sum(x, zero()) == x
        &&& forall|x: Double|
            #![trigger self.sum(zero(), x)]
            x == zero() || (x.finite() && zero().below(x)) ==> self.sum(zero(), x) == x
    }

    /// Whether a number over one half is the number added to itself, and a whole
    /// number over twice itself is one half. Doubles have this.
    pub open spec fn doubles(&self) -> bool {
        &&& forall|x: Double|
            #![trigger self.quotient(x, half())]
            x.finite() ==> self.quotient(x, half()) == self.sum(x, x)
        &&& forall|a: int|
            #![trigger self.quotient(self.integer(a), self.integer(2 * a))]
            0 < a && 2 * a <= WHOLE ==> self.quotient(self.integer(a), self.integer(2 * a))
                == half()
    }

    /// What more of a number does to sums, differences and products.
    pub proof fn ordered_results(&self, c: Double, x: Double, y: Double)
        requires
            self.orderly(),
            c.finite(),
            x.finite(),
            y.finite(),
            x.at_most(y),
        ensures
            self.sum(c, x).at_most(self.sum(c, y)),
            self.difference(c, y).at_most(self.difference(c, x)),
            self.difference(x, c).at_most(self.difference(y, c)),
            zero().at_most(c) ==> self.product(c, x).at_most(self.product(c, y)),
            self.difference(x, x) == zero(),
            self.difference(x, zero()) == x,
            self.sum(x, zero()).same_number(x),
            zero().below(x) ==> self.product(x, zero()) == zero(),
            zero().below(x) || x == zero() ==> self.sum(x, zero()) == x && self.sum(zero(), x)
                == x,
    {
        reveal(Arithmetic::orderly);
    }

    /// What more of a number does to quotients.
    pub proof fn ordered_quotients(&self, x: Double, y: Double, s: Double, t: Double)
        requires
            self.orderly(),
            s.finite(),
            t.finite(),
            x.finite(),
            y.finite(),
            zero().below(s),
            s.at_most(t),
            zero().at_most(x),
            x.at_most(y),
        ensures
            self.quotient(x, t).at_most(self.quotient(y, t)),
            self.quotient(x, t).at_most(self.quotient(x, s)),
            self.quotient(x, s).at_most(self.quotient(y, s)),
            self.quotient(t, t) == one(),
            self.quotient(s, s) == one(),
            self.quotient(zero(), t) == zero(),
            self.quotient(zero(), s) == zero(),
            x.below(t) ==> self.quotient(x, t).below(one()),
            zero().at_most(self.quotient(x, t)),
    {
        reveal(Arithmetic::orderly);
        assert(self.quotient(zero(), t).at_most(self.quotient(x, t)));
    }

    /// Whether two to the power of minus 53 times whole numbers comes out exact:
    /// in order, from zero to one. Doubles have this.
    #[verifier::opaque]
    pub open spec fn divides_the_unit(&self) -> bool {
        &&& self.product(unit_scale(), self.integer(0)) == zero()
        &&& self.product(unit_scale(), self.integer(WHOLE as int)) == one()
        &&& forall|a: int, b: int|
            #![trigger self.product(unit_scale(), self.integer(a)), self.product(unit_scale(), self.integer(b))]
            0 <= a < b <= WHOLE ==> self.product(unit_scale(), self.integer(a)).below(
                self.product(unit_scale(), self.integer(b)),
            )
    }

    /// Random bits are spread evenly over the numbers from zero up to one: of
    /// all patterns, `2048 * k` fall below `k` of the two to the power of 53
    /// parts of the unit.
    pub proof fn units_are_even(&self, bits: u64, k: int)
        requires
            self.divides_the_unit(),
            0 <= k <= WHOLE,
        ensures
            self.unit_of(bits).below(self.product(unit_scale(), self.integer(k))) <==> bits < 2048
                * k,
            zero().at_most(self.unit_of(bits)),
            self.unit_of(bits).below(one()),
            self.product(unit_scale(), self.integer(k)).at_most(one()),
    {
        reveal(Arithmetic::divides_the_unit);
        let n = (bits / 2048) as int;
        assert(0 <= n < WHOLE);
        assert(self.product(unit_scale(), self.integer(n)).below(
            self.product(unit_scale(), self.integer(WHOLE as int)),
        ));
        if n > 0 {
            assert(self.product(unit_scale(), self.integer(0)).below(
                self.product(unit_scale(), self.integer(n)),
            ));
        }
        if k < WHOLE {
            assert(self.product(unit_scale(), self.integer(k)).below(
                self.product(unit_scale(), self.integer(WHOLE as int)),
            ));
        }
        if n < k {
            assert(self.product(unit_scale(), self.integer(n)).below(
                self.product(unit_scale(), self.integer(k)),
            ));
        } else if k < n {
            assert(self.product(unit_scale(), self.integer(k)).below(
                self.product(unit_scale(), self.integer(n)),
            ));
        }
    }

    /// A sum, a difference and a double on a scale.
    pub proof fn exact_results(
        &self,
        scale: spec_fn(Double) -> Option<int>,
        bound: int,
        x: Double,
        y: Double,
    )
        requires
            self.exact_on(scale, bound),
            scale(x) is Some,
            scale(y) is Some,
        ensures
            -bound <= scale(x)->0 + scale(y)->0 <= bound ==> scale(self.sum(x, y)) == Some(
                scale(x)->0 + scale(y)->0,
            ),
            -bound <= scale(x)->0 - scale(y)->0 <= bound ==> scale(self.difference(x, y)) == Some(
                scale(x)->0 - scale(y)->0,
            ),
            -bound <= 2 * scale(y)->0 <= bound ==> scale(self.product(two(), y)) == Some(
                2 * scale(y)->0,
            ),
            scale(x) == scale(y) ==> x == y,
            scale(zero()) == Some(0int),
    {
        reveal(Arithmetic::exact_on);
    }

    /// The numbers added up from the left, starting at `start`.
    pub open spec fn total_from(&self, start: Double, values: Seq<Double>) -> Double
        decreases values.len(),
    {
        if values.len() == 0 {
            start
        } else {
            self.sum(self.total_from(start, values.drop_last()), values.last())
        }
    }

    pub open spec fn total(&self, values: Seq<Double>) -> Double {
        self.total_from(zero(), values)
    }

    fn apply(&self, op: Op, x: Double, y: Double) -> (r: Double)
        requires
            self.valid(),
        ensures
            r == self.value(op, x, y),
    {
        (self.eval)(op, x, y)
    }

    pub fn plus(&self, x: Double, y: Double) -> (r: Double)
        requires
            self.valid(),
        ensures
            r == self.sum(x, y),
    {
        self.apply(Op::Add, x, y)
    }

    pub fn minus(&self, x: Double, y: Double) -> (r: Double)
        requires
            self.valid(),
        ensures
            r == self.difference(x, y),
    {
        self.apply(Op::Sub, x, y)
    }

    pub fn times(&self, x: Double, y: Double) -> (r: Double)
        requires
            self.valid(),
        ensures
            r == self.product(x, y),
    {
        self.apply(Op::Mul, x, y)
    }

    pub fn over(&self, x: Double, y: Double) -> (r: Double)
        requires
            self.valid(),
        ensures
            r == self.quotient(x, y),
    {
        self.apply(Op::Div, x, y)
    }

    pub fn of_int(&self, n: i64) -> (r: Double)
        requires
            self.valid(),
        ensures
            r == self.integer(n as int),
    {
        self.apply(Op::OfInt(n), zero(), zero())
    }

    /// The number from zero up to one that random bits stand for: the upper 53
    /// bits over two to the power of 53.
    pub open spec fn unit_of(&self, bits: u64) -> Double {
        self.product(unit_scale(), self.integer((bits / 2048) as int))
    }

    pub fn unit(&self, bits: u64) -> (r: Double)
        requires
            self.valid(),
        ensures
            r == self.unit_of(bits),
    {
        self.times(unit_scale(), self.of_int((bits / 2048) as i64))
    }

    /// Adds up the numbers from the left, starting at zero.
    pub fn add_up(&self, values: &Vec<Double>) -> (r: Double)
        requires
            self.valid(),
        ensures
            r == self.total(values@),
    {
        let mut acc: Double = zero();
        let mut i: usize = 0;
        while i < values.len()
            invariant
                i <= values.len(),
                self.valid(),
                acc == self.total(values@.take(i as int)),
            decreases values.len() - i,
        {
            acc = self.plus(acc, values[i]);
            i += 1;
            assert(values@.take(i as int).drop_last() =~= values@.take(i - 1));
        }
        assert(values@.take(i as int) =~= values@);
        acc
    }
}

} // verus!
