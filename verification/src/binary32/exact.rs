//! Results that need no rounding.
//!
//! Where the exact result of an operation is itself a binary32 number, the
//! operation returns it.  The lemmas here take the operands as sign-free
//! finite patterns and compare significands and scales, which for given
//! patterns are plain numbers.

use super::arith::{product, sum, truncation};
use super::rounding::{lemma_nearest, lemma_representable, lemma_rounding_scaled};
use super::{lemma_units_zero, scale, significand, units, INFINITY};
use vstd::arithmetic::div_mod::*;
use vstd::arithmetic::power2::*;
use vstd::prelude::*;

verus! {

/// The product of two numbers above or at zero, where it is the number
/// `z`: the significands multiply to the significand of `z` times 2^`j`, and
/// the scales add up accordingly.
pub proof fn lemma_exact_product(x: u32, y: u32, z: u32, j: nat)
    requires
        x < INFINITY,
        y < INFINITY,
        z <= INFINITY,
        significand(x) * significand(y) == significand(z) * pow2(j),
        scale(x) + scale(y) + j == scale(z) + 149,
    ensures
        product(x, y) == z,
{
    let (sx, sy, sz) = (significand(x), significand(y), significand(z));
    let (kx, ky, kz) = (scale(x), scale(y), scale(z));
    lemma_pow2_adds(kx, ky);
    lemma_pow2_adds(j, kx + ky);
    lemma_pow2_adds(kz, 149);
    assert((sx * pow2(kx)) * (sy * pow2(ky)) == (sz * pow2(kz)) * pow2(149)) by (nonlinear_arith)
        requires
            sx * sy == sz * pow2(j),
            pow2(kx + ky) == pow2(kx) * pow2(ky),
            pow2(j + (kx + ky)) == pow2(j) * pow2(kx + ky),
            pow2(kz + 149) == pow2(kz) * pow2(149),
            j + (kx + ky) == kz + 149,
    ;
    lemma_representable(z);
    lemma_rounding_scaled(units(z), 0, 149, z);
    lemma_nearest(units(z) * pow2(149), 149, z);
}

/// The sum of two numbers above or at zero, where it is the number `z`
/// above zero: brought to the common scale `base`, the significands add up
/// to the significand of `z`.
pub proof fn lemma_exact_sum(x: u32, y: u32, z: u32, base: nat)
    requires
        x < INFINITY,
        y < INFINITY,
        0 < z <= INFINITY,
        base <= scale(x),
        base <= scale(y),
        base <= scale(z),
        significand(x) * pow2((scale(x) - base) as nat) + significand(y) * pow2(
            (scale(y) - base) as nat,
        ) == significand(z) * pow2((scale(z) - base) as nat),
    ensures
        sum(x, y) == z,
{
    let (sx, sy, sz) = (significand(x), significand(y), significand(z));
    let (dx, dy, dz) = (
        (scale(x) - base) as nat,
        (scale(y) - base) as nat,
        (scale(z) - base) as nat,
    );
    lemma_pow2_adds(dx, base);
    lemma_pow2_adds(dy, base);
    lemma_pow2_adds(dz, base);
    assert(sx * pow2(dx + base) + sy * pow2(dy + base) == sz * pow2(dz + base))
        by (nonlinear_arith)
        requires
            sx * pow2(dx) + sy * pow2(dy) == sz * pow2(dz),
            pow2(dx + base) == pow2(dx) * pow2(base),
            pow2(dy + base) == pow2(dy) * pow2(base),
            pow2(dz + base) == pow2(dz) * pow2(base),
    ;
    lemma_units_zero(z);
    lemma_representable(z);
}

/// The whole part of a number above or at zero, where it is `n`: with
/// `shift` binary places below the point of the significand, the significand
/// lies between `n` and `n + 1` times 2^`shift`.
pub proof fn lemma_whole_part(z: u32, n: nat, shift: nat)
    requires
        z <= INFINITY,
        n <= i32::MAX,
        scale(z) + shift == 149,
        n * pow2(shift) <= significand(z) < (n + 1) * pow2(shift),
    ensures
        truncation(z) == n,
{
    let s = significand(z);
    let k = scale(z);
    lemma_pow2_adds(shift, k);
    lemma_pow2_pos(k);
    lemma_pow2_pos(149);
    let r = units(z) - n * pow2(149);
    assert(0 <= r < pow2(149)) by (nonlinear_arith)
        requires
            r == s * pow2(k) - n * pow2(149),
            pow2(149) == pow2(shift) * pow2(k),
            n * pow2(shift) <= s < (n + 1) * pow2(shift),
            pow2(k) > 0,
    ;
    lemma_fundamental_div_mod_converse(units(z) as int, pow2(149) as int, n as int, r);
}

} // verus!
