//! Addition, subtraction, multiplication and conversion to `i32`.
//!
//! Each operation is defined by the exact result on the values that the
//! operands denote, rounded once to the nearest pattern, ties to even.  An
//! operation without a meaningful result returns the one quiet NaN
//! [`NAN`](super::NAN), whatever the sign or payload of a NaN operand.

use super::rounding::{lemma_nearest, lemma_representable, lemma_rounding_scaled, nearest,
    round_pack, rounds_to, twice_midpoint};
use super::{abs, exponent_field, fraction_field, is_finite, is_infinite, is_nan, is_negative,
    lemma_one_and_epsilon, lemma_pow2_le, lemma_step_up, lemma_units_increase, lemma_units_order,
    lemma_units_zero, magnitude, nan, negate, negation, pow2_u64, scale, significand, units,
    value, with_sign, HIDDEN_BIT, INFINITY, NAN, ONE, SIGN_BIT};
use vstd::arithmetic::div_mod::*;
use vstd::arithmetic::mul::*;
use vstd::arithmetic::power2::*;
use vstd::prelude::*;

verus! {

/// The pattern of an exactly known number of units after rounding.  A zero
/// takes the sign that `zero_negative` gives.
pub open spec fn rounded(exact: int, zero_negative: bool) -> u32 {
    if exact == 0 {
        with_sign(zero_negative, 0)
    } else if exact > 0 {
        nearest(exact as nat, 0)
    } else {
        with_sign(true, nearest((-exact) as nat, 0))
    }
}

/// `a + b`.  Infinities of opposite sign have no sum; a sum of zero is
/// negative only when both operands are.
pub open spec fn sum(a: u32, b: u32) -> u32 {
    if is_nan(a) || is_nan(b) {
        NAN
    } else if is_infinite(a) {
        if is_infinite(b) && is_negative(a) != is_negative(b) {
            NAN
        } else {
            a
        }
    } else if is_infinite(b) {
        b
    } else {
        rounded(value(a) + value(b), is_negative(a) && is_negative(b))
    }
}

/// `a - b`.
pub open spec fn difference(a: u32, b: u32) -> u32 {
    sum(a, negation(b))
}

/// `a * b`.  Zero times infinity has no product; the sign of every other
/// product is negative exactly when one operand's is.
pub open spec fn product(a: u32, b: u32) -> u32 {
    if is_nan(a) || is_nan(b) {
        NAN
    } else if (is_infinite(a) && magnitude(b) == 0) || (magnitude(a) == 0 && is_infinite(b)) {
        NAN
    } else if is_infinite(a) || is_infinite(b) {
        with_sign(is_negative(a) != is_negative(b), INFINITY)
    } else {
        with_sign(
            is_negative(a) != is_negative(b),
            nearest(units(magnitude(a)) * units(magnitude(b)), 149),
        )
    }
}

/// `x` converted to `i32`: the fraction is dropped, a number out of range
/// goes to the nearest end of the range, a NaN to zero.
pub open spec fn truncation(x: u32) -> int {
    if is_nan(x) {
        0
    } else {
        let whole = (units(magnitude(x)) / pow2(149)) as int;
        if is_negative(x) {
            if -whole < i32::MIN {
                i32::MIN as int
            } else {
                -whole
            }
        } else {
            if whole > i32::MAX {
                i32::MAX as int
            } else {
                whole
            }
        }
    }
}

/// Addition and multiplication do not depend on the order of the operands.
pub proof fn lemma_commutative(a: u32, b: u32)
    ensures
        sum(a, b) == sum(b, a),
        product(a, b) == product(b, a),
{
    assert(units(magnitude(a)) * units(magnitude(b)) == units(magnitude(b)) * units(magnitude(a)))
        by (nonlinear_arith);
}

/// Adding a zero to a finite number that is no zero leaves the number as it
/// is, and so does multiplying it by one.
pub proof fn lemma_neutral(x: u32, zero: u32)
    requires
        is_finite(x),
        magnitude(x) != 0,
        magnitude(zero) == 0,
    ensures
        sum(x, zero) == x,
        product(x, ONE) == x,
{
    let m = magnitude(x);
    lemma_units_zero(0);
    lemma_units_zero(m);
    lemma_representable(m);
    lemma_one_and_epsilon();
    // x * 1 is units(m) * 2^149 / 2^149.
    lemma_rounding_scaled(units(m), 0, 149, m);
    assert(units(m) * units(ONE) == units(m) * pow2(149));
    lemma_nearest(units(m) * pow2(149), 149, m);
}

/// Puts the sign `negative` on the sign-free pattern `m`.
fn signed(negative: bool, m: u32) -> (r: u32)
    requires
        m < SIGN_BIT,
    ensures
        r == with_sign(negative, m),
{
    if negative {
        m + SIGN_BIT
    } else {
        m
    }
}

/// Significand and scale of a finite sign-free pattern.
fn split(m: u32) -> (r: (u64, u32))
    requires
        m < INFINITY,
    ensures
        r.0 == significand(m),
        r.1 == scale(m),
        r.0 < 0x100_0000,
        r.1 <= 253,
        r.1 > 0 ==> r.0 >= 0x80_0000,
{
    let e = m / HIDDEN_BIT;
    let f = m % HIDDEN_BIT;
    if e == 0 {
        (f as u64, 0)
    } else {
        ((HIDDEN_BIT + f) as u64, e - 1)
    }
}

/// A finite number swallows an addend more than 2^32 times finer than its
/// own step: the sum rounds back to the number itself.
proof fn lemma_absorbed(m: u32, small: nat, total: nat, k: nat)
    requires
        0 < m < INFINITY,
        scale(m) >= k + 33,
        small < 0x100_0000 * pow2(k),
        total == units(m) + small || total == units(m) - small,
    ensures
        rounds_to(total, 0, m),
        total > 0,
{
    let below = (m - 1) as u32;
    let step = scale(m);
    lemma_step_up(m);
    lemma_step_up(below);
    lemma2_to64();
    lemma_pow2_adds(25, k);
    lemma_pow2_le(25 + k, scale(below));
    lemma_pow2_le(scale(below), step);
    assert(2 * small < pow2(25 + k)) by (nonlinear_arith)
        requires
            small < 0x100_0000 * pow2(k),
            pow2(25 + k) == 0x200_0000 * pow2(k),
    ;
    assert(twice_midpoint(m) * pow2(0) == twice_midpoint(m)) by (nonlinear_arith)
        requires
            pow2(0) == 1,
    ;
    assert(twice_midpoint(below) * pow2(0) == twice_midpoint(below)) by (nonlinear_arith)
        requires
            pow2(0) == 1,
    ;
}

/// The sum of two finite numbers of which the first has the coarser step.
fn plus_finite(x: u32, y: u32) -> (r: u32)
    requires
        is_finite(x),
        is_finite(y),
        scale(magnitude(x)) >= scale(magnitude(y)),
    ensures
        r == rounded(value(x) + value(y), is_negative(x) && is_negative(y)),
{
    let nx = x >= SIGN_BIT;
    let ny = y >= SIGN_BIT;
    let mx = abs(x);
    let my = abs(y);
    let (sx, kx) = split(mx);
    let (sy, ky) = split(my);
    let gap = kx - ky;
    let ghost fine = pow2(ky as nat);
    proof {
        lemma_pow2_pos(ky as nat);
    }
    if gap > 32 {
        proof {
            let small = units(my);
            assert(small < 0x100_0000 * fine) by (nonlinear_arith)
                requires
                    small == sy * fine,
                    sy < 0x100_0000,
                    fine > 0,
            ;
            let exact = value(x) + value(y);
            let total = if exact >= 0 {
                exact as nat
            } else {
                (-exact) as nat
            };
            lemma_units_increase(0, mx);
            lemma_pow2_pos(kx as nat);
            lemma_pow2_le(25 + ky as nat, kx as nat);
            lemma2_to64();
            lemma_pow2_adds(25, ky as nat);
            assert(small < units(mx)) by (nonlinear_arith)
                requires
                    small < 0x100_0000 * fine,
                    pow2(25 + ky as nat) == 0x200_0000 * fine,
                    pow2(25 + ky as nat) <= pow2(kx as nat),
                    units(mx) == sx * pow2(kx as nat),
                    sx >= 1,
            ;
            lemma_absorbed(mx, small, total, ky as nat);
            lemma_nearest(total, 0, mx);
        }
        return x;
    }
    let factor = pow2_u64(gap);
    proof {
        lemma2_to64();
        lemma_pow2_le(gap as nat, 32);
        assert(sx * factor < 0x100_0000 * 0x1_0000_0000) by (nonlinear_arith)
            requires
                sx < 0x100_0000,
                factor <= 0x1_0000_0000,
        ;
    }
    let wide = sx * factor;
    proof {
        lemma_pow2_adds(gap as nat, ky as nat);
        assert(units(mx) == wide * fine) by (nonlinear_arith)
            requires
                units(mx) == sx * pow2(kx as nat),
                pow2(kx as nat) == factor * fine,
                wide == sx * factor,
        ;
        assert(units(my) == sy * fine);
    }
    if nx == ny {
        let m = wide + sy;
        if m == 0 {
            proof {
                assert(units(mx) == 0 && units(my) == 0) by (nonlinear_arith)
                    requires
                        units(mx) == wide * fine,
                        units(my) == sy * fine,
                        wide == 0,
                        sy == 0,
                ;
            }
            return signed(nx, 0);
        }
        let p = round_pack(m, ky, 0);
        proof {
            let total = m as nat * fine;
            assert(total == units(mx) + units(my) && total > 0) by (nonlinear_arith)
                requires
                    total == (wide + sy) * fine,
                    units(mx) == wide * fine,
                    units(my) == sy * fine,
                    wide + sy > 0,
                    fine > 0,
            ;
            lemma_nearest(total, 0, p);
        }
        signed(nx, p)
    } else if wide > sy {
        let p = round_pack(wide - sy, ky, 0);
        proof {
            let total = (wide - sy) as nat * fine;
            assert(total == units(mx) - units(my) && total > 0) by (nonlinear_arith)
                requires
                    total == (wide - sy) * fine,
                    units(mx) == wide * fine,
                    units(my) == sy * fine,
                    wide > sy,
                    fine > 0,
            ;
            lemma_nearest(total, 0, p);
        }
        signed(nx, p)
    } else if wide < sy {
        let p = round_pack(sy - wide, ky, 0);
        proof {
            let total = (sy - wide) as nat * fine;
            assert(total == units(my) - units(mx) && total > 0) by (nonlinear_arith)
                requires
                    total == (sy - wide) * fine,
                    units(mx) == wide * fine,
                    units(my) == sy * fine,
                    wide < sy,
                    fine > 0,
            ;
            lemma_nearest(total, 0, p);
        }
        signed(ny, p)
    } else {
        0
    }
}

/// `a + b`, rounded to nearest, ties to even.
pub fn plus(a: u32, b: u32) -> (r: u32)
    ensures
        r == sum(a, b),
{
    if nan(a) || nan(b) {
        return NAN;
    }
    let ma = abs(a);
    let mb = abs(b);
    if ma == INFINITY {
        if mb == INFINITY && (a >= SIGN_BIT) != (b >= SIGN_BIT) {
            return NAN;
        }
        return a;
    }
    if mb == INFINITY {
        return b;
    }
    let (_, ka) = split(ma);
    let (_, kb) = split(mb);
    if ka >= kb {
        plus_finite(a, b)
    } else {
        plus_finite(b, a)
    }
}

/// `a - b`, rounded to nearest, ties to even.
pub fn minus(a: u32, b: u32) -> (r: u32)
    ensures
        r == difference(a, b),
{
    plus(a, negate(b))
}

/// `a * b`, rounded to nearest, ties to even.
pub fn times(a: u32, b: u32) -> (r: u32)
    ensures
        r == product(a, b),
{
    if nan(a) || nan(b) {
        return NAN;
    }
    let negative = (a >= SIGN_BIT) != (b >= SIGN_BIT);
    let ma = abs(a);
    let mb = abs(b);
    if ma == INFINITY || mb == INFINITY {
        if ma == 0 || mb == 0 {
            return NAN;
        }
        return signed(negative, INFINITY);
    }
    let (sa, ka) = split(ma);
    let (sb, kb) = split(mb);
    proof {
        assert(sa * sb < 0x100_0000 * 0x100_0000) by (nonlinear_arith)
            requires
                sa < 0x100_0000,
                sb < 0x100_0000,
        ;
    }
    let m = sa * sb;
    let e = ka + kb;
    let ghost exact = units(ma) * units(mb);
    proof {
        lemma_pow2_adds(ka as nat, kb as nat);
        assert(exact == m * pow2(e as nat)) by (nonlinear_arith)
            requires
                exact == (sa * pow2(ka as nat)) * (sb * pow2(kb as nat)),
                pow2(e as nat) == pow2(ka as nat) * pow2(kb as nat),
                m == sa * sb,
        ;
    }
    let p = if e >= 149 {
        let p = round_pack(m, e - 149, 0);
        proof {
            lemma_rounding_scaled(m as nat * pow2((e - 149) as nat), 0, 149, p);
            lemma_pow2_adds((e - 149) as nat, 149);
            assert(m as nat * pow2((e - 149) as nat) * pow2(149) == exact) by (nonlinear_arith)
                requires
                    exact == m * pow2(e as nat),
                    pow2(e as nat) == pow2((e - 149) as nat) * pow2(149),
            ;
        }
        p
    } else {
        let p = round_pack(m, 0, 149 - e);
        proof {
            lemma_rounding_scaled(m as nat * pow2(0), (149 - e) as nat, e as nat, p);
            lemma2_to64();
            assert(m as nat * pow2(0) * pow2(e as nat) == exact) by (nonlinear_arith)
                requires
                    exact == m * pow2(e as nat),
                    pow2(0) == 1,
            ;
        }
        p
    };
    proof {
        lemma_nearest(exact, 149, p);
    }
    signed(negative, p)
}

/// The pattern of 2^31, the first magnitude beyond the range of `i32`.
const TWO_POW_31: u32 = 0x4F00_0000;

/// `x` converted to `i32` as the `as` operator converts it.
pub fn to_i32(x: u32) -> (r: i32)
    ensures
        r == truncation(x),
{
    if nan(x) {
        return 0;
    }
    let negative = x >= SIGN_BIT;
    let m = abs(x);
    let ghost whole = (units(m) / pow2(149)) as int;
    proof {
        lemma_pow2_pos(149);
        lemma2_to64();
    }
    if m >= TWO_POW_31 {
        proof {
            assert(exponent_field(TWO_POW_31) == 158);
            assert(fraction_field(TWO_POW_31) == 0);
            lemma_units_order(TWO_POW_31, m);
            lemma_pow2_adds(8, 149);
            assert(units(TWO_POW_31) == 0x8000_0000 * pow2(149)) by (nonlinear_arith)
                requires
                    units(TWO_POW_31) == 0x80_0000 * pow2(157),
                    pow2(157) == 0x100 * pow2(149),
            ;
            lemma_div_by_multiple(0x8000_0000, pow2(149) as int);
            lemma_div_is_ordered(units(TWO_POW_31) as int, units(m) as int, pow2(149) as int);
        }
        return if negative {
            i32::MIN
        } else {
            i32::MAX
        };
    }
    let (sig, k) = split(m);
    let part: u64;
    if k >= 149 {
        let factor = pow2_u64(k - 149);
        proof {
            assert(k <= 156);
            lemma_pow2_le((k - 149) as nat, 7);
            assert(sig * factor < 0x100_0000 * 0x80) by (nonlinear_arith)
                requires
                    sig < 0x100_0000,
                    factor <= 0x80,
            ;
            lemma_pow2_adds((k - 149) as nat, 149);
            assert(units(m) == (sig * factor) * pow2(149)) by (nonlinear_arith)
                requires
                    units(m) == sig * pow2(k as nat),
                    pow2(k as nat) == factor * pow2(149),
            ;
            lemma_div_by_multiple((sig * factor) as int, pow2(149) as int);
        }
        part = sig * factor;
    } else if k > 125 {
        let divisor = pow2_u64(149 - k);
        proof {
            lemma_pow2_pos((149 - k) as nat);
            lemma_pow2_pos(k as nat);
            lemma_pow2_adds(k as nat, (149 - k) as nat);
            lemma_div_multiples_vanish_quotient(pow2(k as nat) as int, sig as int, divisor as int);
            lemma_mul_is_commutative(pow2(k as nat) as int, sig as int);
        }
        part = sig / divisor;
    } else {
        proof {
            lemma_pow2_pos(k as nat);
            lemma_pow2_adds(24, k as nat);
            lemma_pow2_le(24 + k as nat, 149);
            assert(units(m) < pow2(149)) by (nonlinear_arith)
                requires
                    units(m) == sig * pow2(k as nat),
                    sig < 0x100_0000,
                    pow2(24 + k as nat) == 0x100_0000 * pow2(k as nat),
                    pow2(24 + k as nat) <= pow2(149),
                    pow2(k as nat) > 0,
            ;
            lemma_basic_div(units(m) as int, pow2(149) as int);
        }
        part = 0;
    }
    assert(part == whole);
    if negative {
        -(part as i32)
    } else {
        part as i32
    }
}

} // verus!
