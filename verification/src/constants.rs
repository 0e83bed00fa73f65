//! Protocol constants.

use crate::binary32::arith::product;
use crate::binary32::rounding::{lemma_brackets, lemma_nearest};
use crate::binary32::{exponent_field, fraction_field, scale, significand, units};
use vstd::arithmetic::mul::*;
use vstd::arithmetic::power2::*;
use vstd::prelude::*;

pub mod hid_bits;
pub mod ir_bits;

verus! {

/// UDP port of the receiver's input-redirection listener.
pub const TARGET_PORT: u16 = 4950;

/// Half the span of the circle pad's twelve-bit wire field: 1488.0
/// (`0x5D0`), as a binary32 pattern.
pub const CPAD_BOUND: u32 = 0x44BA_0000;

/// Half the span of the c-stick's eight-bit wire field: 127.0 (`0x7F`), as a
/// binary32 pattern.
pub const CPP_BOUND: u32 = 0x42FE_0000;

/// The factor of the rotation onto the receiver's diagonal axes: the
/// binary32 nearest to 1/sqrt(2).
pub const FRAC_1_SQRT_2: u32 = 0x3F35_04F3;

/// The c-stick's span after the rotation: `FRAC_1_SQRT_2` times `CPP_BOUND`,
/// rounded to binary32: about 89.80256.
pub const ROT_CPP_BOUND: u32 = 0x42B3_9AE9;

/// The circle pad's centre in its wire field.
pub const CPAD_CENTER_OFFSET_INT: i32 = 0x800;

/// The c-stick's centre in its wire field.
pub const CPP_CENTER_OFFSET_INT: i32 = 0x80;

/// `CPAD_CENTER_OFFSET_INT` as a binary32 pattern: 2048.0.
pub const CPAD_CENTER_OFFSET: u32 = 0x4500_0000;

/// `CPP_CENTER_OFFSET_INT` as a binary32 pattern: 128.0.
pub const CPP_CENTER_OFFSET: u32 = 0x4300_0000;

/// The magnitude that stands for a centred left stick, so that the wire never
/// carries an exact zero: the binary32 nearest to 0.001.
pub const MINIMAL_NUDGE_LSTICK: u32 = 0x3A83_126F;

/// The magnitude that stands for a centred right stick: the binary32 nearest
/// to 0.008.
pub const MINIMAL_NUDGE_RSTICK: u32 = 0x3C03_126F;

/// The least number of milliseconds between two frames under the throttled
/// policy.
pub const THROTTLE_INTERVAL_MS: u64 = 50;

/// The longest that the worker waits for an input event before it sends its
/// heartbeat, in milliseconds.
pub const POLL_TIMEOUT_MS: u64 = 16;

/// The value of the button word while nothing is pressed: twelve ones.
pub const BUTTONS_RELEASED: u32 = 0xFFF;

/// The second word of every frame: no touch-screen input.
pub const TOUCH_NONE: u32 = 0x0200_0000;

/// The low byte of the c-stick word: a valid c-stick sample is present.
pub const CPP_VALID: u32 = 0x81;

/// The patterns of the bounds and centres denote the whole numbers they are
/// named after, one being 2^149 units.
pub proof fn lemma_constants_denote()
    ensures
        units(CPAD_BOUND) == 0x5D0 * pow2(149),
        units(CPP_BOUND) == 0x7F * pow2(149),
        units(CPAD_CENTER_OFFSET) == CPAD_CENTER_OFFSET_INT * pow2(149),
        units(CPP_CENTER_OFFSET) == CPP_CENTER_OFFSET_INT * pow2(149),
{
    lemma2_to64();
    assert(exponent_field(CPAD_BOUND) == 137 && fraction_field(CPAD_BOUND) == 0x3A_0000);
    lemma_pow2_adds(13, 136);
    assert(0xBA_0000 * pow2(136) == 0x5D0 * pow2(149)) by (nonlinear_arith)
        requires
            pow2(149) == 0x2000 * pow2(136),
    ;
    assert(exponent_field(CPP_BOUND) == 133 && fraction_field(CPP_BOUND) == 0x7E_0000);
    lemma_pow2_adds(17, 132);
    assert(0xFE_0000 * pow2(132) == 0x7F * pow2(149)) by (nonlinear_arith)
        requires
            pow2(149) == 0x2_0000 * pow2(132),
    ;
    assert(exponent_field(CPAD_CENTER_OFFSET) == 138 && fraction_field(CPAD_CENTER_OFFSET) == 0);
    lemma_pow2_adds(12, 137);
    assert(0x80_0000 * pow2(137) == 0x800 * pow2(149)) by (nonlinear_arith)
        requires
            pow2(149) == 0x1000 * pow2(137),
    ;
    assert(exponent_field(CPP_CENTER_OFFSET) == 134 && fraction_field(CPP_CENTER_OFFSET) == 0);
    lemma_pow2_adds(16, 133);
    assert(0x80_0000 * pow2(133) == 0x80 * pow2(149)) by (nonlinear_arith)
        requires
            pow2(149) == 0x1_0000 * pow2(133),
    ;
}

/// The nudges are the binary32 numbers nearest to one thousandth and to
/// eight thousandths: the left one is a multiple of 2^-33, the right one of
/// 2^-30, and the decimal fraction lies between the midpoints to their
/// neighbours.
pub proof fn lemma_nudges_denote()
    ensures
        scale(MINIMAL_NUDGE_LSTICK) + 33 == 149,
        (2 * significand(MINIMAL_NUDGE_LSTICK) - 1) * 1000 < 2 * pow2(33) < (2 * significand(
            MINIMAL_NUDGE_LSTICK,
        ) + 1) * 1000,
        scale(MINIMAL_NUDGE_RSTICK) + 30 == 149,
        (2 * significand(MINIMAL_NUDGE_RSTICK) - 1) * 1000 < 2 * 8 * pow2(30) < (2 * significand(
            MINIMAL_NUDGE_RSTICK,
        ) + 1) * 1000,
{
    lemma2_to64();
    lemma2_to64_rest();
    assert(significand(MINIMAL_NUDGE_LSTICK) == 0x83_126F && scale(MINIMAL_NUDGE_LSTICK) == 116);
    assert(significand(MINIMAL_NUDGE_RSTICK) == 0x83_126F && scale(MINIMAL_NUDGE_RSTICK) == 119);
}

/// The rotation factor is the binary32 nearest to 1/sqrt(2): it is a
/// multiple of 2^-24, and one half lies between the squares of the midpoints
/// to its two neighbours.  The rotated span is its product with the c-stick's
/// span.
pub proof fn lemma_rotated_span()
    ensures
        scale(FRAC_1_SQRT_2) + 24 == 149,
        (2 * significand(FRAC_1_SQRT_2) - 1) * (2 * significand(FRAC_1_SQRT_2) - 1) < pow2(49),
        pow2(49) < (2 * significand(FRAC_1_SQRT_2) + 1) * (2 * significand(FRAC_1_SQRT_2) + 1),
        product(FRAC_1_SQRT_2, CPP_BOUND) == ROT_CPP_BOUND,
{
    lemma2_to64();
    lemma2_to64_rest();
    assert(significand(FRAC_1_SQRT_2) == 0xB5_04F3 && scale(FRAC_1_SQRT_2) == 125);
    assert(pow2(49) == 0x2_0000_0000_0000);
    let s = significand(FRAC_1_SQRT_2);
    assert((2 * s - 1) * (2 * s - 1) == 562949886699225int && (2 * s + 1) * (2 * s + 1)
        == 562949981605489int) by (nonlinear_arith)
        requires
            s == 0xB5_04F3,
    ;
    assert(significand(CPP_BOUND) == 0xFE_0000 && scale(CPP_BOUND) == 132);
    let exact = units(FRAC_1_SQRT_2) * units(CPP_BOUND);
    let m: nat = 0xB5_04F3 * 0xFE_0000;
    let r: nat = 0xB3_9AE9;
    lemma_pow2_adds(125, 132);
    lemma_pow2_adds(24, 257);
    assert(exact == m * pow2(257)) by (nonlinear_arith)
        requires
            exact == (0xB5_04F3 * pow2(125)) * (0xFE_0000 * pow2(132)),
            pow2(257) == pow2(125) * pow2(132),
            m == 0xB5_04F3 * 0xFE_0000,
    ;
    // Between the midpoints around r, on the scale of 2^132 units.
    assert((2 * r - 1) * 0x100_0000 < 2 * m < (2 * r + 1) * 0x100_0000);
    lemma_pow2_pos(257);
    lemma_mul_strict_inequality(
        ((2 * r - 1) * 0x100_0000) as int,
        (2 * m) as int,
        pow2(257) as int,
    );
    lemma_mul_strict_inequality(
        (2 * m) as int,
        ((2 * r + 1) * 0x100_0000) as int,
        pow2(257) as int,
    );
    assert(((2 * r - 1) * 0x100_0000) * pow2(257) == (2 * r - 1) * pow2(132 + 149)
        && ((2 * r + 1) * 0x100_0000) * pow2(257) == (2 * r + 1) * pow2(132 + 149) && (2 * m)
        * pow2(257) == 2 * exact) by (nonlinear_arith)
        requires
            pow2(132 + 149) == 0x100_0000 * pow2(257),
            exact == m * pow2(257),
    ;
    lemma_brackets(exact, 149, 132, r);
    lemma_nearest(exact, 149, ROT_CPP_BOUND);
}

} // verus!
