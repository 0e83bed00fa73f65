//! Rounding to the nearest binary32 number, ties to the even pattern.
//!
//! The exact number to be rounded is a non-negative fraction `num / 2^den` of
//! units.  Each sign-free pattern `p` up to positive infinity owns the
//! interval of numbers that round to it: from the midpoint between `p - 1`
//! and `p` to the midpoint between `p` and `p + 1`, the ends included when
//! `p` is even and excluded when it is odd.  With infinity taken as 2^128
//! this is IEEE 754 round-to-nearest-even, overflow included.

use super::{exponent_field, fraction_field, lemma_pow2_le, lemma_step_up, lemma_units_increase,
    pow2_u64, scale, significand, units, HIDDEN_BIT, INFINITY};
use vstd::arithmetic::mul::*;
use vstd::arithmetic::power2::*;
use vstd::prelude::*;

verus! {

/// Twice the midpoint between the magnitudes of the sign-free patterns `p`
/// and `p + 1`, in units.
pub open spec fn twice_midpoint(p: u32) -> nat {
    units(p) + units((p + 1) as u32)
}

/// Whether `num / 2^den` units lie in the rounding interval of the sign-free
/// pattern `p`.
pub open spec fn rounds_to(num: nat, den: nat, p: u32) -> bool {
    &&& p <= INFINITY
    &&& p > 0 ==> if p % 2 == 0 {
        twice_midpoint((p - 1) as u32) * pow2(den) <= 2 * num
    } else {
        twice_midpoint((p - 1) as u32) * pow2(den) < 2 * num
    }
    &&& p < INFINITY ==> if p % 2 == 0 {
        2 * num <= twice_midpoint(p) * pow2(den)
    } else {
        2 * num < twice_midpoint(p) * pow2(den)
    }
}

/// The sign-free pattern nearest to `num / 2^den` units, ties to even.
pub open spec fn nearest(num: nat, den: nat) -> u32 {
    choose|p: u32| rounds_to(num, den, p)
}

proof fn lemma_intervals_apart(num: nat, den: nat, p: u32, q: u32)
    requires
        p <= q,
        rounds_to(num, den, p),
        rounds_to(num, den, q),
    ensures
        p == q,
{
    if p < q {
        let below = (q - 1) as u32;
        let d = pow2(den);
        lemma_pow2_pos(den);
        if p < below {
            lemma_units_increase(p, below);
            lemma_units_increase((p + 1) as u32, q);
            lemma_mul_strict_inequality(
                twice_midpoint(p) as int,
                twice_midpoint(below) as int,
                d as int,
            );
        }
    }
}

/// No number lies in the rounding intervals of two patterns.
pub proof fn lemma_rounding_unique(num: nat, den: nat, p: u32, q: u32)
    requires
        rounds_to(num, den, p),
        rounds_to(num, den, q),
    ensures
        p == q,
{
    if p <= q {
        lemma_intervals_apart(num, den, p, q);
    } else {
        lemma_intervals_apart(num, den, q, p);
    }
}

/// A pattern in whose interval the number lies is the nearest one.
pub proof fn lemma_nearest(num: nat, den: nat, p: u32)
    requires
        rounds_to(num, den, p),
    ensures
        nearest(num, den) == p,
{
    lemma_rounding_unique(num, den, p, nearest(num, den));
}

/// Walks down from `p` to the pattern in whose interval the number lies.
proof fn lemma_search(num: nat, den: nat, p: u32) -> (r: u32)
    requires
        p <= INFINITY,
        p < INFINITY ==> if p % 2 == 0 {
            2 * num <= twice_midpoint(p) * pow2(den)
        } else {
            2 * num < twice_midpoint(p) * pow2(den)
        },
    ensures
        rounds_to(num, den, r),
    decreases p,
{
    if p == 0 {
        0
    } else {
        let edge = twice_midpoint((p - 1) as u32) * pow2(den);
        let inside = if p % 2 == 0 {
            edge <= 2 * num
        } else {
            edge < 2 * num
        };
        if inside {
            p
        } else {
            lemma_search(num, den, (p - 1) as u32)
        }
    }
}

/// Every number has a nearest pattern: the rounding intervals leave no gap.
pub proof fn lemma_nearest_exists(num: nat, den: nat)
    ensures
        rounds_to(num, den, nearest(num, den)),
{
    let p = lemma_search(num, den, INFINITY);
    assert(rounds_to(num, den, p));
}

/// Rounding keeps the order: a larger number rounds to no smaller pattern.
pub proof fn lemma_nearest_monotone(smaller: nat, larger: nat, den: nat)
    requires
        smaller <= larger,
    ensures
        nearest(smaller, den) <= nearest(larger, den),
{
    lemma_nearest_exists(smaller, den);
    lemma_nearest_exists(larger, den);
    let p = nearest(smaller, den);
    let q = nearest(larger, den);
    if q < p {
        let below = (p - 1) as u32;
        lemma_pow2_pos(den);
        if q < below {
            lemma_units_increase(q, below);
            lemma_units_increase((q + 1) as u32, p);
            lemma_mul_strict_inequality(
                twice_midpoint(q) as int,
                twice_midpoint(below) as int,
                pow2(den) as int,
            );
        }
    }
}

/// A number that a pattern denotes rounds to that pattern.
pub proof fn lemma_representable(p: u32)
    requires
        p <= INFINITY,
    ensures
        rounds_to(units(p), 0, p),
        nearest(units(p), 0) == p,
{
    lemma2_to64();
    if p > 0 {
        let below = (p - 1) as u32;
        lemma_units_increase(below, p);
        assert(twice_midpoint(below) * pow2(0) == twice_midpoint(below)) by (nonlinear_arith)
            requires
                pow2(0) == 1,
        ;
    }
    if p < INFINITY {
        lemma_units_increase(p, (p + 1) as u32);
        assert(twice_midpoint(p) * pow2(0) == twice_midpoint(p)) by (nonlinear_arith)
            requires
                pow2(0) == 1,
        ;
    }
    lemma_nearest(units(p), 0, p);
}

/// Rounding does not depend on how the fraction is written: numerator and
/// denominator may both be scaled by a power of two.
pub proof fn lemma_rounding_scaled(num: nat, den: nat, by: nat, p: u32)
    requires
        rounds_to(num, den, p),
    ensures
        rounds_to(num * pow2(by), den + by, p),
{
    let j = pow2(by);
    lemma_pow2_pos(by);
    lemma_pow2_adds(den, by);
    if p > 0 {
        let m = twice_midpoint((p - 1) as u32);
        assert(m * pow2(den + by) == (m * pow2(den)) * j) by (nonlinear_arith)
            requires
                pow2(den + by) == pow2(den) * j,
        ;
        assert(2 * (num * j) == (2 * num) * j) by (nonlinear_arith);
        if p % 2 == 0 {
            lemma_mul_inequality((m * pow2(den)) as int, (2 * num) as int, j as int);
        } else {
            lemma_mul_strict_inequality((m * pow2(den)) as int, (2 * num) as int, j as int);
        }
    }
    if p < INFINITY {
        let m = twice_midpoint(p);
        assert(m * pow2(den + by) == (m * pow2(den)) * j) by (nonlinear_arith)
            requires
                pow2(den + by) == pow2(den) * j,
        ;
        assert(2 * (num * j) == (2 * num) * j) by (nonlinear_arith);
        if p % 2 == 0 {
            lemma_mul_inequality((2 * num) as int, (m * pow2(den)) as int, j as int);
        } else {
            lemma_mul_strict_inequality((2 * num) as int, (m * pow2(den)) as int, j as int);
        }
    }
}

/// The pattern assembled from a scale `t` and a significand `r`, where `r`
/// may have been carried up to 2^24.
pub proof fn lemma_assembled(t: nat, r: nat)
    requires
        t <= 253,
        r <= 0x100_0000,
        t > 0 ==> r >= 0x80_0000,
    ensures
        t * 0x80_0000 + r <= INFINITY,
        units((t * 0x80_0000 + r) as u32) == r * pow2(t),
        r < 0x100_0000 ==> scale((t * 0x80_0000 + r) as u32) == t,
        r == 0x100_0000 ==> scale((t * 0x80_0000 + r) as u32) == t + 1,
{
    let p = (t * 0x80_0000 + r) as u32;
    if r < 0x80_0000 {
        assert(exponent_field(p) == 0);
        assert(fraction_field(p) == r);
    } else if r < 0x100_0000 {
        assert(exponent_field(p) == t + 1);
        assert(fraction_field(p) == r - 0x80_0000);
        assert(significand(p) == r);
    } else {
        assert(exponent_field(p) == t + 2);
        assert(fraction_field(p) == 0);
        lemma_pow2_unfold(t + 1);
        assert(0x80_0000 * (2 * pow2(t)) == 0x100_0000 * pow2(t)) by (nonlinear_arith);
    }
}

/// A number within half a step of `r * 2^t` units, on the side that the tie
/// rule allows, rounds to the pattern assembled from `t` and `r`.
pub proof fn lemma_brackets(num: nat, den: nat, t: nat, r: nat)
    requires
        t <= 253,
        r <= 0x100_0000,
        t > 0 ==> r >= 0x80_0000,
        2 * num <= (2 * r + 1) * pow2(t + den),
        r > 0 ==> (2 * r - 1) * pow2(t + den) <= 2 * num,
        r % 2 == 1 ==> 2 * num < (2 * r + 1) * pow2(t + den),
        r % 2 == 1 ==> (2 * r - 1) * pow2(t + den) < 2 * num,
        t > 0 && r == 0x80_0000 ==> (2 * r) * pow2(t + den) <= 2 * num,
    ensures
        rounds_to(num, den, (t * 0x80_0000 + r) as u32),
{
    let p = (t * 0x80_0000 + r) as u32;
    let w = pow2(t + den);
    let d = pow2(den);
    let g = pow2(t);
    lemma_assembled(t, r);
    lemma_pow2_adds(t, den);
    lemma_pow2_pos(den);
    lemma_pow2_pos(t);
    assert(p % 2 == r % 2);
    if p < INFINITY {
        lemma_step_up(p);
        lemma_pow2_le(t, scale(p));
        let m = twice_midpoint(p);
        assert((2 * r + 1) * g <= m) by (nonlinear_arith)
            requires
                m == r * g + (r * g + pow2(scale(p))),
                g <= pow2(scale(p)),
        ;
        lemma_mul_inequality(((2 * r + 1) * g) as int, m as int, d as int);
        assert(((2 * r + 1) * g) * d == (2 * r + 1) * w) by (nonlinear_arith)
            requires
                w == g * d,
        ;
    }
    if p > 0 {
        let below = (p - 1) as u32;
        let m = twice_midpoint(below);
        assert(r > 0);
        if t == 0 || r > 0x80_0000 {
            lemma_assembled(t, (r - 1) as nat);
            assert(below == (t * 0x80_0000 + (r - 1)) as u32);
            assert(m * d == (2 * r - 1) * w) by (nonlinear_arith)
                requires
                    m == (r - 1) * g + r * g,
                    w == g * d,
            ;
        } else {
            lemma_units_increase(below, p);
            assert(m < (2 * r) * g) by (nonlinear_arith)
                requires
                    m == units(below) + r * g,
                    units(below) < r * g,
            ;
            lemma_mul_strict_inequality(m as int, ((2 * r) * g) as int, d as int);
            assert(((2 * r) * g) * d == (2 * r) * w) by (nonlinear_arith)
                requires
                    w == g * d,
            ;
        }
    }
}

/// Dividing by an even `unit` and rounding the quotient to nearest, ties to
/// even, leaves the dividend within half a `unit` of the rounded multiple.
proof fn lemma_round_step(sig: int, unit: int, half: int, q: int, rem: int, r: int)
    by (nonlinear_arith)
    requires
        unit == 2 * half,
        half > 0,
        sig == q * unit + rem,
        0 <= rem < unit,
        q >= 0,
        r == q + 1 || r == q,
        r == q + 1 ==> rem >= half,
        r == q ==> rem <= half,
    ensures
        (2 * r - 1) * unit <= 2 * sig <= (2 * r + 1) * unit,
        rem != half ==> (2 * r - 1) * unit < 2 * sig < (2 * r + 1) * unit,
{
}

/// The number of bits of `x`.
fn bit_length(x: u64) -> (len: u32)
    requires
        0 < x < 0x4000_0000_0000_0000,
    ensures
        1 <= len <= 62,
        pow2((len - 1) as nat) <= x < pow2(len as nat),
{
    let mut len: u32 = 1;
    let mut bound: u64 = 2;
    proof {
        lemma2_to64();
    }
    while bound <= x
        invariant
            1 <= len <= 62,
            bound == pow2(len as nat),
            pow2((len - 1) as nat) <= x < 0x4000_0000_0000_0000,
        decreases 63 - len,
    {
        proof {
            lemma2_to64_rest();
            if len >= 62 {
                lemma_pow2_le(62, len as nat);
            }
            lemma_pow2_unfold((len + 1) as nat);
        }
        bound = bound * 2;
        len = len + 1;
    }
    len
}

/// Rounds `sig * 2^up / 2^down` units to the nearest sign-free pattern, ties
/// to even; positive infinity when the number is too large.
pub fn round_pack(sig: u64, up: u32, down: u32) -> (p: u32)
    requires
        sig < 0x4000_0000_0000_0000,
        up <= 512,
        down <= 512,
    ensures
        rounds_to(sig as nat * pow2(up as nat), down as nat, p),
{
    let ghost num = sig as nat * pow2(up as nat);
    let ghost den = down as nat;
    if sig == 0 {
        proof {
            assert(num == 0) by (nonlinear_arith)
                requires
                    num == 0 * pow2(up as nat),
            ;
        }
        return 0;
    }
    let len = bit_length(sig);
    let top: i64 = (len as i64 - 1) + (up as i64) - (down as i64);
    proof {
        lemma_pow2_pos(up as nat);
        lemma_pow2_pos(den);
        lemma_pow2_adds((len - 1) as nat, up as nat);
        lemma_pow2_adds(len as nat, up as nat);
        lemma_mul_inequality(
            pow2((len - 1) as nat) as int,
            sig as int,
            pow2(up as nat) as int,
        );
        lemma_mul_strict_inequality(sig as int, pow2(len as nat) as int, pow2(up as nat) as int);
        // 2^(len - 1 + up) <= num < 2^(len + up)
        assert(pow2((len - 1 + up) as nat) <= num < pow2((len + up) as nat));
    }
    if top >= 277 {
        proof {
            let last = (INFINITY - 1) as u32;
            lemma_units_increase(last, INFINITY);
            lemma_assembled(253, 0x100_0000);
            lemma_pow2_adds(24, 253);
            lemma2_to64();
            assert(units(INFINITY) == pow2(277));
            lemma_pow2_adds(277, den);
            lemma_pow2_le((277 + den) as nat, (len - 1 + up) as nat);
            lemma_mul_strict_inequality(
                twice_midpoint(last) as int,
                (2 * pow2(277)) as int,
                pow2(den) as int,
            );
            assert((2 * pow2(277)) * pow2(den) == 2 * (pow2(277) * pow2(den)))
                by (nonlinear_arith);
        }
        return INFINITY;
    }
    let t: u32 = if top > 23 {
        (top - 23) as u32
    } else {
        0
    };
    let s: i64 = up as i64 - down as i64 - t as i64;
    let rounded: u64;
    if s >= 0 {
        // The number is a whole multiple of the step: nothing is lost.
        let factor = pow2_u64(s as u32);
        proof {
            lemma_pow2_adds(len as nat, s as nat);
            lemma_pow2_adds((len - 1) as nat, s as nat);
            lemma_pow2_le((len + s) as nat, 24);
            lemma2_to64();
            lemma_mul_strict_inequality(sig as int, pow2(len as nat) as int, factor as int);
            lemma_mul_inequality(pow2((len - 1) as nat) as int, sig as int, factor as int);
            if t > 0 {
                assert(len - 1 + s == 23);
            }
        }
        rounded = sig * factor;
        proof {
            let w = pow2(t as nat + den);
            lemma_pow2_adds(s as nat, (t as nat + den) as nat);
            assert(s + t + den == up);
            assert(num == rounded * w) by (nonlinear_arith)
                requires
                    num == sig * pow2(up as nat),
                    rounded == sig * factor,
                    pow2(up as nat) == factor * w,
            ;
            lemma_pow2_pos(t as nat + den);
            assert((2 * rounded - 1) * w < 2 * num < (2 * rounded + 1) * w
                && 2 * num == (2 * rounded) * w) by (nonlinear_arith)
                requires
                    num == rounded * w,
                    w > 0,
            ;
        }
    } else if s > -63 {
        let shift: u32 = (-s) as u32;
        let unit = pow2_u64(shift);
        proof {
            lemma_pow2_pos(shift as nat);
            lemma_pow2_unfold(shift as nat);
        }
        let q = sig / unit;
        let rem = sig % unit;
        let half = unit / 2;
        rounded = if rem > half || (rem == half && q % 2 == 1) {
            q + 1
        } else {
            q
        };
        proof {
            let w = pow2(t as nat + den);
            assert(sig == q * unit + rem) by {
                vstd::arithmetic::div_mod::lemma_fundamental_div_mod(sig as int, unit as int);
                lemma_mul_is_commutative(unit as int, q as int);
            }
            lemma_round_step(
                sig as int,
                unit as int,
                half as int,
                q as int,
                rem as int,
                rounded as int,
            );
            // Bounds of the quotient.
            if len as int >= shift {
                lemma_pow2_adds((len - shift) as nat, shift as nat);
                assert(q < pow2((len - shift) as nat)) by (nonlinear_arith)
                    requires
                        q * unit <= sig,
                        sig < pow2((len - shift) as nat) * unit,
                        unit > 0,
                ;
                lemma_pow2_le((len - shift) as nat, 24);
            } else {
                lemma_pow2_le(len as nat, shift as nat);
                assert(q == 0) by (nonlinear_arith)
                    requires
                        q * unit <= sig,
                        sig < unit,
                        q >= 0,
                ;
            }
            lemma2_to64();
            if t > 0 {
                assert(len - shift == 24);
                lemma_pow2_adds(23, shift as nat);
                assert(q >= pow2(23)) by (nonlinear_arith)
                    requires
                        sig == q * unit + rem,
                        rem < unit,
                        pow2(23) * unit <= sig,
                        unit > 0,
                ;
            }
            // From multiples of the divisor to multiples of the step.
            assert(t + den == shift + up);
            lemma_pow2_adds(shift as nat, up as nat);
            let u = pow2(up as nat);
            assert((2 * rounded + 1) * w == ((2 * rounded + 1) * unit) * u) by (nonlinear_arith)
                requires
                    w == unit * u,
            ;
            assert((2 * rounded - 1) * w == ((2 * rounded - 1) * unit) * u) by (nonlinear_arith)
                requires
                    w == unit * u,
            ;
            assert(2 * num == (2 * sig) * u) by (nonlinear_arith)
                requires
                    num == sig * u,
            ;
            lemma_mul_inequality((2 * sig) as int, ((2 * rounded + 1) * unit) as int, u as int);
            lemma_mul_inequality(((2 * rounded - 1) * unit) as int, (2 * sig) as int, u as int);
            if rem != half {
                lemma_mul_strict_inequality(
                    (2 * sig) as int,
                    ((2 * rounded + 1) * unit) as int,
                    u as int,
                );
                lemma_mul_strict_inequality(
                    ((2 * rounded - 1) * unit) as int,
                    (2 * sig) as int,
                    u as int,
                );
            }
            if t > 0 && rounded == 0x80_0000 {
                assert((2 * rounded) * w <= 2 * num) by (nonlinear_arith)
                    requires
                        w == unit * u,
                        num == sig * u,
                        rounded * unit <= sig,
                        u > 0,
                ;
            }
        }
    } else {
        // Less than half of the smallest step.
        rounded = 0;
        proof {
            assert(t == 0);
            lemma2_to64_rest();
            lemma_pow2_adds(63, up as nat);
            lemma_pow2_le((63 + up) as nat, den);
            lemma_mul_strict_inequality(
                (2 * sig) as int,
                pow2(63) as int,
                pow2(up as nat) as int,
            );
            assert(2 * num == (2 * sig) * pow2(up as nat)) by (nonlinear_arith)
                requires
                    num == sig * pow2(up as nat),
            ;
            assert((2 * 0 + 1) * pow2(0 + den) == pow2(den)) by (nonlinear_arith);
        }
    }
    proof {
        lemma_brackets(num, den, t as nat, rounded as nat);
    }
    t * HIDDEN_BIT + (rounded as u32)
}

} // verus!
