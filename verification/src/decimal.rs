//! Deterministic fixed-point numbers.
//!
//! A [`Decimal`] stores a non-negative quantity as an integer count of
//! `1/SCALE` units.  Every operation rounds toward zero, so independent
//! re-executions of the same computation reproduce bit-identical results.

use vstd::prelude::*;
use vstd::arithmetic::div_mod::{
    lemma_fundamental_div_mod, lemma_mod_bound, lemma_div_is_ordered, lemma_div_multiples_vanish,
};
use vstd::arithmetic::mul::lemma_mul_is_commutative;

verus! {

/// Number of raw units in one whole token: all values carry nine fractional
/// decimal digits.
pub const SCALE: u128 = 1_000_000_000;

/// Product of two fixed-point values, rounded down to the scale.
pub open spec fn mul_down(a: int, b: int) -> int {
    (a * b) / (SCALE as int)
}

/// Quotient of two fixed-point values, rounded down to the scale.
pub open spec fn div_down(a: int, b: int) -> int
    recommends
        b > 0,
{
    (a * (SCALE as int)) / b
}

/// A non-negative fixed-point number with `SCALE` raw units per whole unit.
#[derive(Clone, Copy, PartialEq, Eq, Structural, Debug)]
pub struct Decimal {
    pub raw: u128,
}

impl Decimal {
    /// The value 0.
    pub fn zero() -> (r: Decimal)
        ensures
            r.raw == 0,
    {
        Decimal { raw: 0 }
    }

    /// The value 1.
    pub fn one() -> (r: Decimal)
        ensures
            r.raw == SCALE,
    {
        Decimal { raw: SCALE }
    }

    /// Builds a value directly from its raw unit count.
    pub fn from_raw(raw: u128) -> (r: Decimal)
        ensures
            r.raw == raw,
    {
        Decimal { raw }
    }

    /// Builds the whole number `n`.
    pub fn from_int(n: u64) -> (r: Decimal)
        ensures
            r.raw == n * SCALE,
    {
        Decimal { raw: (n as u128) * SCALE }
    }

    pub fn is_zero(&self) -> (r: bool)
        ensures
            r == (self.raw == 0),
    {
        self.raw == 0
    }

    pub fn lt(&self, other: &Decimal) -> (r: bool)
        ensures
            r == (self.raw < other.raw),
    {
        self.raw < other.raw
    }

    pub fn le(&self, other: &Decimal) -> (r: bool)
        ensures
            r == (self.raw <= other.raw),
    {
        self.raw <= other.raw
    }

    pub fn gt(&self, other: &Decimal) -> (r: bool)
        ensures
            r == (self.raw > other.raw),
    {
        self.raw > other.raw
    }

    pub fn ge(&self, other: &Decimal) -> (r: bool)
        ensures
            r == (self.raw >= other.raw),
    {
        self.raw >= other.raw
    }

    /// Exact sum.
    pub fn add(&self, other: &Decimal) -> (r: Decimal)
        requires
            self.raw + other.raw <= u128::MAX,
        ensures
            r.raw == self.raw + other.raw,
    {
        Decimal { raw: self.raw + other.raw }
    }

    /// Exact difference; the caller must not underflow.
    pub fn sub(&self, other: &Decimal) -> (r: Decimal)
        requires
            other.raw <= self.raw,
        ensures
            r.raw == self.raw - other.raw,
    {
        Decimal { raw: self.raw - other.raw }
    }

    /// Product, rounded down to the scale.
    pub fn mul(&self, other: &Decimal) -> (r: Decimal)
        requires
            self.raw * other.raw <= u128::MAX,
        ensures
            r.raw == mul_down(self.raw as int, other.raw as int),
    {
        Decimal { raw: (self.raw * other.raw) / SCALE }
    }

    /// Quotient, rounded down to the scale.
    pub fn div(&self, other: &Decimal) -> (r: Decimal)
        requires
            other.raw > 0,
            self.raw * SCALE <= u128::MAX,
        ensures
            r.raw == div_down(self.raw as int, other.raw as int),
    {
        Decimal { raw: (self.raw * SCALE) / other.raw }
    }

    /// Product with a plain integer (no rescaling).
    pub fn mul_u64(&self, n: u64) -> (r: Decimal)
        requires
            self.raw * n <= u128::MAX,
        ensures
            r.raw == self.raw * n,
    {
        Decimal { raw: self.raw * (n as u128) }
    }

    /// Quotient by a plain integer (no rescaling), rounded down.
    pub fn div_u64(&self, n: u64) -> (r: Decimal)
        requires
            n > 0,
        ensures
            r.raw == self.raw as int / n as int,
    {
        Decimal { raw: self.raw / (n as u128) }
    }
}

/// The quotient times the divisor never exceeds the dividend.
pub proof fn lemma_div_mul_le(a: int, b: int)
    requires
        b > 0,
    ensures
        (a / b) * b <= a,
{
    lemma_fundamental_div_mod(a, b);
    lemma_mod_bound(a, b);
    assert(a == b * (a / b) + (a % b));
    lemma_mul_is_commutative(b, a / b);
}

/// A factor whose multiple stays below the dividend stays below the
/// quotient.
pub proof fn lemma_mul_le_div(a: int, b: int, c: int)
    requires
        c > 0,
        a * c <= b,
    ensures
        a <= b / c,
{
    lemma_div_is_ordered(a * c, b, c);
    lemma_div_multiples_vanish(a, c);
    lemma_mul_is_commutative(a, c);
}

/// Floor division is sub-additive: dividing two parts separately loses at
/// least as much as dividing their sum.
pub proof fn lemma_div_plus_le(x: int, y: int, c: int)
    requires
        c > 0,
    ensures
        x / c + y / c <= (x + y) / c,
{
    lemma_div_mul_le(x, c);
    lemma_div_mul_le(y, c);
    assert((x / c + y / c) * c == (x / c) * c + (y / c) * c) by (nonlinear_arith);
    lemma_mul_le_div(x / c + y / c, x + y, c);
}

} // verus!
