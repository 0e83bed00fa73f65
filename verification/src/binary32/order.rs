//! Rounded arithmetic keeps the order of its operands.

use super::arith::{product, rounded, sum, truncation};
use super::rounding::{lemma_nearest, lemma_nearest_exists, lemma_nearest_monotone, nearest};
use super::{at_least, is_finite, is_nan, is_negative, lemma_units_order, lemma_units_zero,
    magnitude, units, value, with_sign, INFINITY};
use vstd::arithmetic::div_mod::*;
use vstd::arithmetic::mul::*;
use vstd::arithmetic::power2::*;
use vstd::prelude::*;

verus! {

/// Rounding an exactly known number gives no NaN, and the larger of two
/// numbers rounds to the larger value, whatever sign a zero takes.
pub proof fn lemma_rounded_monotone(x: int, y: int, x_zero_negative: bool, y_zero_negative: bool)
    requires
        x <= y,
    ensures
        !is_nan(rounded(x, x_zero_negative)),
        !is_nan(rounded(y, y_zero_negative)),
        value(rounded(x, x_zero_negative)) <= value(rounded(y, y_zero_negative)),
{
    lemma_units_zero(0);
    if x > 0 {
        lemma_nearest_exists(x as nat, 0);
        lemma_nearest_exists(y as nat, 0);
        lemma_nearest_monotone(x as nat, y as nat, 0);
        lemma_units_order(nearest(x as nat, 0), nearest(y as nat, 0));
    } else {
        if x < 0 {
            lemma_nearest_exists((-x) as nat, 0);
        }
        if y > 0 {
            lemma_nearest_exists(y as nat, 0);
        } else if y < 0 {
            lemma_nearest_exists((-y) as nat, 0);
            lemma_nearest_monotone((-y) as nat, (-x) as nat, 0);
            lemma_units_order(nearest((-y) as nat, 0), nearest((-x) as nat, 0));
        }
    }
}

/// Adding the same finite number to both keeps the order of two numbers.
pub proof fn lemma_sum_monotone(a: u32, b: u32, k: u32)
    requires
        at_least(b, a),
        is_finite(k),
    ensures
        at_least(sum(b, k), sum(a, k)),
{
    lemma_units_order(magnitude(a), INFINITY);
    lemma_units_order(magnitude(b), INFINITY);
    lemma_rounded_monotone(
        value(a) + value(k),
        value(b) + value(k),
        is_negative(a) && is_negative(k),
        is_negative(b) && is_negative(k),
    );
    lemma_units_order(magnitude(sum(a, k)), INFINITY);
    lemma_units_order(magnitude(sum(b, k)), INFINITY);
}

/// The magnitude of the product of a number of magnitude `m` and a finite
/// number of magnitude `c`.
spec fn scaled_by(m: u32, c: u32) -> u32 {
    if m == INFINITY {
        INFINITY
    } else {
        nearest(units(m) * units(c), 149)
    }
}

proof fn lemma_scaled_by_monotone(m: u32, n: u32, c: u32)
    requires
        m <= n <= INFINITY,
        c < INFINITY,
    ensures
        scaled_by(m, c) <= scaled_by(n, c) <= INFINITY,
        units(scaled_by(m, c)) <= units(scaled_by(n, c)),
{
    lemma_nearest_exists(units(m) * units(c), 149);
    lemma_nearest_exists(units(n) * units(c), 149);
    if n < INFINITY {
        lemma_units_order(m, n);
        lemma_mul_inequality(units(m) as int, units(n) as int, units(c) as int);
        lemma_nearest_monotone(units(m) * units(c), units(n) * units(c), 149);
    }
    lemma_units_order(scaled_by(m, c), scaled_by(n, c));
}

/// Multiplying both by the same finite number above zero keeps the order of
/// two numbers.
pub proof fn lemma_product_monotone(a: u32, b: u32, c: u32)
    requires
        at_least(b, a),
        is_finite(c),
        !is_negative(c),
        c != 0,
    ensures
        at_least(product(b, c), product(a, c)),
{
    let ma = magnitude(a);
    let mb = magnitude(b);
    lemma_units_order(ma, mb);
    lemma_units_zero(ma);
    lemma_units_zero(mb);
    assert(product(a, c) == with_sign(is_negative(a), scaled_by(ma, c)));
    assert(product(b, c) == with_sign(is_negative(b), scaled_by(mb, c)));
    if ma <= mb {
        lemma_scaled_by_monotone(ma, mb, c);
    } else {
        lemma_scaled_by_monotone(mb, ma, c);
    }
    lemma_scaled_by_monotone(ma, ma, c);
    lemma_scaled_by_monotone(mb, mb, c);
    if ma == 0 {
        // A zero times any finite number is a zero.
        assert(units(0) * units(c) == 0) by (nonlinear_arith)
            requires
                units(0) == 0,
        ;
        lemma_nearest(0, 149, 0);
    }
}

/// Conversion to `i32` keeps the order of two numbers.
pub proof fn lemma_truncation_monotone(a: u32, b: u32)
    requires
        at_least(b, a),
    ensures
        truncation(a) <= truncation(b),
{
    let ua = units(magnitude(a));
    let ub = units(magnitude(b));
    lemma_pow2_pos(149);
    lemma_div_pos_is_pos(ua as int, pow2(149) as int);
    lemma_div_pos_is_pos(ub as int, pow2(149) as int);
    if ua <= ub {
        lemma_div_is_ordered(ua as int, ub as int, pow2(149) as int);
    } else {
        lemma_div_is_ordered(ub as int, ua as int, pow2(149) as int);
    }
}

} // verus!
