//! Amounts of CPU time in seconds, held exactly.
//!
//! The kernel counts CPU time in clock ticks, so an amount in seconds is a fraction: a number of
//! ticks over the number of ticks in a second. Sums of such fractions are fractions again, and
//! [`CpuSeconds`] keeps them without rounding.

use vstd::prelude::*;

use crate::natural::Natural;

verus! {

/// The seconds that `ticks` clock ticks take at `clk_tck` ticks a second. A clock of rate zero
/// measures nothing.
pub open spec fn tick_seconds(ticks: int, clk_tck: int) -> real {
    if clk_tck == 0 {
        0 as real
    } else {
        ticks as real / clk_tck as real
    }
}

/// An exact, non-negative number of seconds.
#[derive(Debug)]
pub struct CpuSeconds {
    num: Natural,
    den: Natural,
}

impl View for CpuSeconds {
    type V = real;

    closed spec fn view(&self) -> real {
        self.num@ as int as real / self.den@ as int as real
    }
}

proof fn lemma_fraction_sum(a: real, b: real, c: real, d: real)
    requires
        b > 0 as real,
        d > 0 as real,
    ensures
        a / b + c / d == (a * d + c * b) / (b * d),
        b * d > 0 as real,
{
    assert(b * d > 0 as real) by (nonlinear_arith)
        requires
            b > 0 as real,
            d > 0 as real,
    ;
    assert(a / b + c / d == (a * d + c * b) / (b * d)) by (nonlinear_arith)
        requires
            b > 0 as real,
            d > 0 as real,
            b * d > 0 as real,
    ;
}

proof fn lemma_fraction_less(a: real, b: real, c: real, d: real)
    requires
        b > 0 as real,
        d > 0 as real,
    ensures
        (a / b < c / d) == (a * d < c * b),
{
    let x = a / b;
    let y = c / d;
    assert(x * b == a) by (nonlinear_arith)
        requires
            x == a / b,
            b > 0 as real,
    ;
    assert(y * d == c) by (nonlinear_arith)
        requires
            y == c / d,
            d > 0 as real,
    ;
    assert(b * d > 0 as real) by (nonlinear_arith)
        requires
            b > 0 as real,
            d > 0 as real,
    ;
    assert(a * d == x * (b * d)) by (nonlinear_arith)
        requires
            x * b == a,
    ;
    assert(c * b == y * (b * d)) by (nonlinear_arith)
        requires
            y * d == c,
    ;
    let k = b * d;
    assert((x < y) == (x * k < y * k)) by (nonlinear_arith)
        requires
            k > 0 as real,
    ;
}

proof fn lemma_real_product(x: nat, y: nat)
    ensures
        (x * y) as int as real == x as int as real * (y as int as real),
{
    let (i, j) = (x as int, y as int);
    assert((i * j) as real == i as real * (j as real)) by (nonlinear_arith);
}

impl CpuSeconds {
    #[verifier::type_invariant]
    spec fn has_denominator(&self) -> bool {
        self.den@ > 0
    }

    /// No time at all.
    pub fn zero() -> (res: CpuSeconds)
        ensures
            res@ == 0 as real,
    {
        let zero: CpuSeconds = CpuSeconds { num: Natural::zero(), den: Natural::from_u128(1) };
        assert(zero@ == 0int as real / (1int as real));
        zero
    }

    /// The seconds that `ticks` clock ticks take at `clk_tck` ticks a second.
    pub fn of_ticks(ticks: u128, clk_tck: u64) -> (res: CpuSeconds)
        ensures
            res@ == tick_seconds(ticks as int, clk_tck as int),
    {
        if clk_tck == 0 {
            return CpuSeconds::zero();
        }
        CpuSeconds { num: Natural::from_u128(ticks), den: Natural::from_u128(clk_tck as u128) }
    }

    /// The fraction that holds this amount: numerator and denominator.
    pub fn fraction(&self) -> (res: (&Natural, &Natural))
        ensures
            res.1@ > 0,
            self@ == res.0@ as int as real / res.1@ as int as real,
    {
        proof {
            use_type_invariant(self);
        }
        (&self.num, &self.den)
    }

    /// The sum of two amounts.
    pub fn plus(&self, other: &CpuSeconds) -> (res: CpuSeconds)
        ensures
            res@ == self@ + other@,
    {
        proof {
            use_type_invariant(self);
            use_type_invariant(other);
        }
        let ghost (a, b, c, d) = (
            self.num@ as int as real,
            self.den@ as int as real,
            other.num@ as int as real,
            other.den@ as int as real,
        );
        if !self.den.less_than(&other.den) && !other.den.less_than(&self.den) {
            assert(a / b + c / b == (a + c) / b) by (nonlinear_arith)
                requires
                    b > 0 as real,
            ;
            let num: Natural = self.num.plus(&other.num);
            assert(num@ as int as real == a + c);
            return CpuSeconds { num, den: self.den.clone() };
        }
        let num: Natural = self.num.times(&other.den).plus(&other.num.times(&self.den));
        let den: Natural = self.den.times(&other.den);
        proof {
            lemma_fraction_sum(a, b, c, d);
            lemma_real_product(self.den@, other.den@);
            lemma_real_product(self.num@, other.den@);
            lemma_real_product(other.num@, self.den@);
            assert(num@ as int as real == a * d + c * b);
        }
        CpuSeconds { num, den }
    }

    /// Whether this amount is greater than `other`.
    pub fn exceeds(&self, other: &CpuSeconds) -> (res: bool)
        ensures
            res == (self@ > other@),
    {
        proof {
            use_type_invariant(self);
            use_type_invariant(other);
            let (a, b, c, d) = (
                self.num@ as int as real,
                self.den@ as int as real,
                other.num@ as int as real,
                other.den@ as int as real,
            );
            lemma_fraction_less(c, d, a, b);
            lemma_real_product(other.num@, self.den@);
            lemma_real_product(self.num@, other.den@);
        }
        other.num.times(&self.den).less_than(&self.num.times(&other.den))
    }
}

impl Clone for CpuSeconds {
    fn clone(&self) -> (res: CpuSeconds)
        ensures
            res@ == self@,
    {
        proof {
            use_type_invariant(self);
        }
        CpuSeconds { num: self.num.clone(), den: self.den.clone() }
    }
}

/// The seconds that `ticks` clock ticks take at `clk_tck` ticks a second; zero where `clk_tck` is
/// zero.
pub fn ticks_to_seconds(ticks: u64, clk_tck: u64) -> (res: CpuSeconds)
    ensures
        res@ == tick_seconds(ticks as int, clk_tck as int),
{
    CpuSeconds::of_ticks(ticks as u128, clk_tck)
}

} // verus!
