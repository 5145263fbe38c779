//! Micro-unit fixed-point numbers.
//!
//! The policy engine stores every numeric quantity (rewards, averages,
//! epsilon) as a signed count of micro-units: one unit equals one million
//! micro-units, so a value carries six decimal places. Arithmetic on this
//! representation is exact integer arithmetic, which keeps reward
//! accumulation free of rounding error; rounding happens only where an
//! average is derived from a total.

use vstd::prelude::*;

verus! {

/// Micro-units in one whole unit: `Fixed` values carry six decimal places.
pub const MICROS_PER_UNIT: i64 = 1_000_000;

/// Largest magnitude, in micro-units, that the engine accepts as a single
/// reward. Inputs beyond this bound (one billion whole units) are outside
/// the engine's numeric domain and are absorbed as invalid feedback.
pub const MAX_REWARD_MICROS: i64 = 1_000_000_000_000_000;

/// A decimal number with six fractional digits, stored as a count of
/// micro-units. This is the engine's model of a finite numeric value.
#[derive(Clone, Copy, Debug, PartialEq, Eq, Structural)]
pub struct Fixed {
    pub micros: i64,
}

impl Fixed {
    /// The mathematical number of micro-units.
    pub open spec fn as_int(self) -> int {
        self.micros as int
    }

    pub fn new(micros: i64) -> (r: Self)
        ensures
            r.micros == micros,
    {
        Fixed { micros }
    }

    pub fn zero() -> (r: Self)
        ensures
            r.micros == 0,
    {
        Fixed { micros: 0 }
    }
}

/// A probability in `[0, 1]`, clamped: below zero becomes zero, above one
/// becomes one.
pub open spec fn clamp_unit_micros(m: int) -> int {
    if m < 0 {
        0
    } else if m > MICROS_PER_UNIT {
        MICROS_PER_UNIT as int
    } else {
        m
    }
}

/// Clamp a value into the unit interval `[0, 1]`.
pub fn clamp_unit(f: Fixed) -> (r: Fixed)
    ensures
        r.as_int() == clamp_unit_micros(f.as_int()),
{
    if f.micros < 0 {
        Fixed { micros: 0 }
    } else if f.micros > MICROS_PER_UNIT {
        Fixed { micros: MICROS_PER_UNIT }
    } else {
        f
    }
}

/// Floor division of a total by a positive count; the spec-level `/` on
/// `int` rounds toward negative infinity, and this function matches it.
pub fn div_floor_total(t: i128, n: u64) -> (q: i128)
    requires
        n > 0,
        i128::MIN < t,
    ensures
        q == t as int / n as int,
{
    let d: u128 = n as u128;
    if t >= 0 {
        let m: u128 = t as u128;
        let q0: u128 = m / d;
        assert(q0 <= m) by {
            vstd::arithmetic::div_mod::lemma_div_is_ordered_by_denominator(m as int, 1, d as int);
        };
        q0 as i128
    } else {
        let m: u128 = (-t) as u128;
        let q0: u128 = m / d;
        let r: u128 = m % d;
        assert(q0 <= m) by {
            vstd::arithmetic::div_mod::lemma_div_is_ordered_by_denominator(m as int, 1, d as int);
        };
        proof {
            vstd::arithmetic::div_mod::lemma_fundamental_div_mod(m as int, d as int);
        }
        if r == 0 {
            let q1: i128 = q0 as i128;
            proof {
                lemma_neg_div(t as int, d as int, q0 as int, 0);
            }
            -q1
        } else {
            let q1: i128 = q0 as i128;
            proof {
                lemma_neg_div(t as int, d as int, q0 as int, r as int);
            }
            -q1 - 1
        }
    }
}

/// Floor division of `-(q0 * d + r)` by `d`: exact when the remainder is
/// zero, one below the negated quotient otherwise.
proof fn lemma_neg_div(t: int, d: int, q0: int, r: int)
    requires
        d > 0,
        0 <= r < d,
        -t == q0 * d + r,
    ensures
        r == 0 ==> t / d == -q0,
        r != 0 ==> t / d == -q0 - 1,
{
    if r == 0 {
        assert(t == (-q0) * d + 0) by (nonlinear_arith)
            requires
                -t == q0 * d + r,
                r == 0,
        ;
        vstd::arithmetic::div_mod::lemma_fundamental_div_mod_converse(t, d, -q0, 0);
    } else {
        assert(t == (-q0 - 1) * d + (d - r)) by (nonlinear_arith)
            requires
                -t == q0 * d + r,
        ;
        vstd::arithmetic::div_mod::lemma_fundamental_div_mod_converse(t, d, -q0 - 1, d - r);
    }
}

} // verus!
