//! IEEE 754 binary32 numbers, carried as their bit patterns.
//!
//! A pattern is the `u32` that `to_bits` gives: one sign bit, eight exponent
//! bits, twenty-three fraction bits.  The model below assigns every pattern
//! that is not a NaN its exact value as an integer number of *units*, one unit
//! being 2^-149, the smallest positive binary32 number.  Every finite
//! binary32 number is a whole number of units, so comparison, negation and
//! the exact results of addition and multiplication are plain integer
//! statements.
//!
//! Positive infinity is given the magnitude 2^128, which continues the
//! formula for finite patterns by one step and makes the overflow rule of
//! rounding the same rule as everywhere else.

use vstd::arithmetic::power2::*;
use vstd::bits::*;
use vstd::prelude::*;

pub mod arith;
pub mod exact;
pub mod order;
pub mod rounding;

verus! {

/// The pattern of the sign alone: negative zero.
pub const SIGN_BIT: u32 = 0x8000_0000;

/// The pattern of positive infinity; the least sign-free pattern that is no
/// finite number.
pub const INFINITY: u32 = 0x7F80_0000;

/// The quiet NaN that every invalid operation of this module returns.
pub const NAN: u32 = 0x7FC0_0000;

/// The weight of the implicit leading bit of a normal number: 2^23.
pub const HIDDEN_BIT: u32 = 0x80_0000;

/// The pattern of 2^-23, the distance from 1 to the next binary32 number.
pub const EPSILON: u32 = 0x3400_0000;

/// Whether the sign bit of `x` is set.
pub open spec fn is_negative(x: u32) -> bool {
    x >= SIGN_BIT
}

/// `x` with the sign bit cleared.
pub open spec fn magnitude(x: u32) -> u32 {
    if x >= SIGN_BIT {
        (x - SIGN_BIT) as u32
    } else {
        x
    }
}

/// `x` with the sign bit flipped.
pub open spec fn negation(x: u32) -> u32 {
    if x >= SIGN_BIT {
        (x - SIGN_BIT) as u32
    } else {
        (x + SIGN_BIT) as u32
    }
}

/// The sign-free pattern `m` under the sign `negative`.
pub open spec fn with_sign(negative: bool, m: u32) -> u32 {
    if negative {
        (m + SIGN_BIT) as u32
    } else {
        m
    }
}

/// Whether `x` is no number: all exponent bits set and a fraction that is not
/// zero.
pub open spec fn is_nan(x: u32) -> bool {
    magnitude(x) > INFINITY
}

/// Whether `x` is an infinity of either sign.
pub open spec fn is_infinite(x: u32) -> bool {
    magnitude(x) == INFINITY
}

/// Whether `x` is a number that is no infinity: zero, subnormal or normal.
pub open spec fn is_finite(x: u32) -> bool {
    magnitude(x) < INFINITY
}

/// The exponent field of a sign-free pattern.
pub open spec fn exponent_field(m: u32) -> nat {
    (m / HIDDEN_BIT) as nat
}

/// The fraction field of a sign-free pattern.
pub open spec fn fraction_field(m: u32) -> nat {
    (m % HIDDEN_BIT) as nat
}

/// The integer significand of a sign-free pattern: the fraction, with the
/// implicit leading bit unless the number is subnormal.
pub open spec fn significand(m: u32) -> nat {
    if exponent_field(m) == 0 {
        fraction_field(m)
    } else {
        HIDDEN_BIT as nat + fraction_field(m)
    }
}

/// The power of two by which the significand of `m` is scaled, counted from
/// the unit 2^-149.
pub open spec fn scale(m: u32) -> nat {
    if exponent_field(m) == 0 {
        0
    } else {
        (exponent_field(m) - 1) as nat
    }
}

/// The number that the sign-free pattern `m` denotes, in units of 2^-149.
pub open spec fn units(m: u32) -> nat {
    significand(m) * pow2(scale(m))
}

/// The number that `x` denotes, in units of 2^-149.  Meaningful unless `x` is
/// a NaN.
pub open spec fn value(x: u32) -> int {
    if is_negative(x) {
        -(units(magnitude(x)) as int)
    } else {
        units(magnitude(x)) as int
    }
}

/// `a < b` as IEEE 754 defines it: false when either is a NaN.
pub open spec fn less(a: u32, b: u32) -> bool {
    !is_nan(a) && !is_nan(b) && value(a) < value(b)
}

/// `a >= b` as IEEE 754 defines it: false when either is a NaN.
pub open spec fn at_least(a: u32, b: u32) -> bool {
    !is_nan(a) && !is_nan(b) && value(a) >= value(b)
}

/// `a > b` as IEEE 754 defines it: false when either is a NaN.
pub open spec fn greater(a: u32, b: u32) -> bool {
    less(b, a)
}

/// A larger exponent gives no smaller power of two.
pub proof fn lemma_pow2_le(a: nat, b: nat)
    requires
        a <= b,
    ensures
        pow2(a) <= pow2(b),
{
    if a < b {
        lemma_pow2_strictly_increases(a, b);
    }
}

/// 2^k as a machine integer.
pub(crate) fn pow2_u64(k: u32) -> (r: u64)
    requires
        k < 64,
    ensures
        r == pow2(k as nat),
{
    proof {
        lemma_u64_pow2_no_overflow(k as nat);
        lemma_u64_shl_is_mul(1, k as u64);
    }
    1u64 << (k as u64)
}

/// One, the number that a stick at full deflection gives.
pub const ONE: u32 = 0x3F80_0000;

/// One is 2^149 units, and the distance from it to the next number is 2^126
/// units, that is 2^-23.
pub proof fn lemma_one_and_epsilon()
    ensures
        units(ONE) == pow2(149),
        units(EPSILON) == pow2(126),
{
    assert(exponent_field(ONE) == 127 && fraction_field(ONE) == 0);
    assert(exponent_field(EPSILON) == 104 && fraction_field(EPSILON) == 0);
    lemma2_to64();
    lemma_pow2_adds(23, 126);
    lemma_pow2_adds(23, 103);
}

/// From one sign-free pattern to the next the magnitude grows by one step of
/// the lower pattern's scale.
pub proof fn lemma_step_up(m: u32)
    requires
        m < INFINITY,
    ensures
        units((m + 1) as u32) == units(m) + pow2(scale(m)),
        scale(m) <= scale((m + 1) as u32) <= scale(m) + 1,
{
    let n = (m + 1) as u32;
    let k = scale(m);
    if fraction_field(m) + 1 < HIDDEN_BIT {
        assert(exponent_field(n) == exponent_field(m));
        assert(fraction_field(n) == fraction_field(m) + 1);
        assert((significand(m) + 1) * pow2(k) == significand(m) * pow2(k) + pow2(k))
            by (nonlinear_arith);
    } else {
        assert(exponent_field(n) == exponent_field(m) + 1);
        assert(fraction_field(n) == 0);
        if exponent_field(m) == 0 {
            lemma2_to64();
        } else {
            lemma_pow2_unfold(k + 1);
            assert(0x80_0000 * (2 * pow2(k)) == 0xFF_FFFF * pow2(k) + pow2(k))
                by (nonlinear_arith);
        }
    }
}

/// Larger sign-free patterns denote larger magnitudes.
pub proof fn lemma_units_increase(m: u32, n: u32)
    requires
        m < n <= INFINITY,
    ensures
        units(m) < units(n),
    decreases n - m,
{
    let below = (n - 1) as u32;
    lemma_step_up(below);
    lemma_pow2_pos(scale(below));
    if m < below {
        lemma_units_increase(m, below);
    }
}

/// The order of sign-free patterns is the order of the magnitudes they
/// denote.
pub proof fn lemma_units_order(m: u32, n: u32)
    requires
        m <= INFINITY,
        n <= INFINITY,
    ensures
        m < n <==> units(m) < units(n),
        m == n <==> units(m) == units(n),
{
    if m < n {
        lemma_units_increase(m, n);
    } else if n < m {
        lemma_units_increase(n, m);
    }
}

/// Zero, of either sign, is the only pattern of value zero.
pub proof fn lemma_units_zero(m: u32)
    requires
        m <= INFINITY,
    ensures
        units(m) == 0 <==> m == 0,
{
    lemma2_to64();
    assert(units(0) == 0) by (nonlinear_arith)
        requires
            units(0) == 0 * pow2(0),
    ;
    lemma_units_order(0, m);
}

/// Flips the sign of `x`.
pub fn negate(x: u32) -> (r: u32)
    ensures
        r == negation(x),
{
    if x >= SIGN_BIT {
        x - SIGN_BIT
    } else {
        x + SIGN_BIT
    }
}

/// Clears the sign of `x`.
pub fn abs(x: u32) -> (r: u32)
    ensures
        r == magnitude(x),
{
    if x >= SIGN_BIT {
        x - SIGN_BIT
    } else {
        x
    }
}

/// Whether `x` is a NaN.
pub fn nan(x: u32) -> (r: bool)
    ensures
        r == is_nan(x),
{
    abs(x) > INFINITY
}

/// `a < b`, false when either is a NaN.
pub fn lt(a: u32, b: u32) -> (r: bool)
    ensures
        r == less(a, b),
{
    if nan(a) || nan(b) {
        return false;
    }
    let ma = abs(a);
    let mb = abs(b);
    proof {
        lemma_units_order(ma, mb);
        lemma_units_zero(ma);
        lemma_units_zero(mb);
    }
    if a >= SIGN_BIT {
        if b >= SIGN_BIT {
            mb < ma
        } else {
            ma != 0 || mb != 0
        }
    } else {
        if b >= SIGN_BIT {
            false
        } else {
            ma < mb
        }
    }
}

/// `a > b`, false when either is a NaN.
pub fn gt(a: u32, b: u32) -> (r: bool)
    ensures
        r == greater(a, b),
{
    lt(b, a)
}

/// `a >= b`, false when either is a NaN.
pub fn ge(a: u32, b: u32) -> (r: bool)
    ensures
        r == at_least(a, b),
{
    if nan(a) || nan(b) {
        return false;
    }
    !lt(a, b)
}

} // verus!
