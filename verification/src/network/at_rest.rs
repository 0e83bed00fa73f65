//! The frame of a pad at rest.
//!
//! A fresh state holds the nudges, which are no round numbers, so every step
//! of its encoding rounds.  Each value is caught between two numbers near it
//! whose encoding needs no rounding and has the same whole part.

use super::{c_stick_axis, c_stick_word, circle_pad_axis, circle_pad_word, le_bytes,
    lemma_frame_shape, wire_frame};
use crate::binary32::arith::{difference, lemma_commutative, product, sum};
use crate::binary32::exact::{lemma_exact_product, lemma_exact_sum, lemma_whole_part};
use crate::binary32::order::{lemma_product_monotone, lemma_sum_monotone,
    lemma_truncation_monotone};
use crate::binary32::{at_least, lemma_units_order, lemma_units_zero, scale, significand};
use crate::constants::{CPAD_BOUND, CPAD_CENTER_OFFSET, CPP_CENTER_OFFSET, MINIMAL_NUDGE_LSTICK,
    MINIMAL_NUDGE_RSTICK, ROT_CPP_BOUND};
use crate::pad_state::initial_pad;
use vstd::arithmetic::power2::*;
use vstd::prelude::*;

verus! {

/// Of two sign-free patterns that are no NaN the larger denotes the larger
/// number.
proof fn lemma_ordered(a: u32, b: u32)
    requires
        a <= b <= 0x7F80_0000,
    ensures
        at_least(b, a),
{
    lemma_units_order(a, b);
}

/// The left nudge, about 0.001, lies between 0.75 and 1.25 times 2^-10, and
/// both of these go to 2049.
pub proof fn lemma_circle_pad_at_rest()
    ensures
        circle_pad_axis(MINIMAL_NUDGE_LSTICK) == 0x801,
{
    let low = 0x3A40_0000u32;
    let high = 0x3AA0_0000u32;
    lemma2_to64();
    // low * 1488 = 1.08984375, high * 1488 = 1.81640625
    assert(significand(low) == 0xC0_0000 && scale(low) == 115);
    assert(significand(high) == 0xA0_0000 && scale(high) == 116);
    assert(significand(CPAD_BOUND) == 0xBA_0000 && scale(CPAD_BOUND) == 136);
    assert(significand(0x3F8B_8000) == 0x8B_8000 && scale(0x3F8B_8000) == 126);
    assert(significand(0x3FE8_8000) == 0xE8_8000 && scale(0x3FE8_8000) == 126);
    lemma_exact_product(low, CPAD_BOUND, 0x3F8B_8000, 24);
    lemma_exact_product(high, CPAD_BOUND, 0x3FE8_8000, 23);
    // ... + 2048 = 2049.08984375 and 2049.81640625
    assert(significand(CPAD_CENTER_OFFSET) == 0x80_0000 && scale(CPAD_CENTER_OFFSET) == 137);
    assert(significand(0x4500_1170) == 0x80_1170 && scale(0x4500_1170) == 137);
    assert(significand(0x4500_1D10) == 0x80_1D10 && scale(0x4500_1D10) == 137);
    lemma_exact_sum(0x3F8B_8000, CPAD_CENTER_OFFSET, 0x4500_1170, 126);
    lemma_exact_sum(0x3FE8_8000, CPAD_CENTER_OFFSET, 0x4500_1D10, 126);
    lemma_whole_part(0x4500_1170, 2049, 12);
    lemma_whole_part(0x4500_1D10, 2049, 12);
    // The nudge lies between.
    lemma_ordered(low, MINIMAL_NUDGE_LSTICK);
    lemma_ordered(MINIMAL_NUDGE_LSTICK, high);
    lemma_product_monotone(low, MINIMAL_NUDGE_LSTICK, CPAD_BOUND);
    lemma_product_monotone(MINIMAL_NUDGE_LSTICK, high, CPAD_BOUND);
    let mid = product(MINIMAL_NUDGE_LSTICK, CPAD_BOUND);
    lemma_sum_monotone(0x3F8B_8000, mid, CPAD_CENTER_OFFSET);
    lemma_sum_monotone(mid, 0x3FE8_8000, CPAD_CENTER_OFFSET);
    lemma_truncation_monotone(0x4500_1170, sum(mid, CPAD_CENTER_OFFSET));
    lemma_truncation_monotone(sum(mid, CPAD_CENTER_OFFSET), 0x4500_1D10);
}

/// Twice the right nudge, about 0.016, lies between 2^-6 and 1.25 times
/// 2^-6, and the rotated span between 88 and 96: the horizontal field lies
/// between 129.375 and 129.875.  The difference of the nudge and itself is
/// zero and goes to the centre, 128.
pub proof fn lemma_c_stick_at_rest()
    ensures
        c_stick_axis(sum(MINIMAL_NUDGE_RSTICK, MINIMAL_NUDGE_RSTICK)) == 0x81,
        c_stick_axis(difference(MINIMAL_NUDGE_RSTICK, MINIMAL_NUDGE_RSTICK)) == 0x80,
{
    let nudge = MINIMAL_NUDGE_RSTICK;
    let twice = 0x3C83_126Fu32;
    let low = 0x3C80_0000u32;
    let high = 0x3CA0_0000u32;
    let span = ROT_CPP_BOUND;
    let span_low = 0x42B0_0000u32;
    let span_high = 0x42C0_0000u32;
    let centre = CPP_CENTER_OFFSET;
    lemma2_to64();
    assert(significand(nudge) == 0x83_126F && scale(nudge) == 119);
    assert(significand(twice) == 0x83_126F && scale(twice) == 120);
    lemma_exact_sum(nudge, nudge, twice, 119);
    assert(significand(centre) == 0x80_0000 && scale(centre) == 133);
    assert(significand(span) == 0xB3_9AE9 && scale(span) == 132);

    // The vertical field.
    lemma_units_zero(0);
    assert(difference(nudge, nudge) == 0);
    assert(significand(0) == 0 && scale(0) == 0);
    assert(0 * significand(span) == 0 * pow2(17)) by (nonlinear_arith);
    lemma_exact_product(0, span, 0, 17);
    assert(0 * pow2(0) + 0x80_0000 * pow2(133) == 0x80_0000 * pow2(133)) by (nonlinear_arith);
    lemma_exact_sum(0, centre, centre, 0);
    lemma_whole_part(centre, 128, 16);

    // The horizontal field.
    assert(significand(low) == 0x80_0000 && scale(low) == 120);
    assert(significand(high) == 0xA0_0000 && scale(high) == 120);
    assert(significand(span_low) == 0xB0_0000 && scale(span_low) == 132);
    assert(significand(span_high) == 0xC0_0000 && scale(span_high) == 132);
    assert(significand(0x3FB0_0000) == 0xB0_0000 && scale(0x3FB0_0000) == 126);
    assert(significand(0x3FF0_0000) == 0xF0_0000 && scale(0x3FF0_0000) == 126);
    lemma_exact_product(low, span_low, 0x3FB0_0000, 23);
    lemma_exact_product(high, span_high, 0x3FF0_0000, 23);
    assert(significand(0x4301_6000) == 0x81_6000 && scale(0x4301_6000) == 133);
    assert(significand(0x4301_E000) == 0x81_E000 && scale(0x4301_E000) == 133);
    lemma_exact_sum(0x3FB0_0000, centre, 0x4301_6000, 126);
    lemma_exact_sum(0x3FF0_0000, centre, 0x4301_E000, 126);
    lemma_whole_part(0x4301_6000, 129, 16);
    lemma_whole_part(0x4301_E000, 129, 16);
    lemma_ordered(low, twice);
    lemma_ordered(twice, high);
    lemma_ordered(span_low, span);
    lemma_ordered(span, span_high);
    lemma_commutative(low, span_low);
    lemma_commutative(low, span);
    lemma_commutative(high, span);
    lemma_commutative(high, span_high);
    lemma_product_monotone(span_low, span, low);
    lemma_product_monotone(low, twice, span);
    lemma_product_monotone(twice, high, span);
    lemma_product_monotone(span, span_high, high);
    let mid = product(twice, span);
    assert(at_least(mid, 0x3FB0_0000));
    assert(at_least(0x3FF0_0000, mid));
    lemma_sum_monotone(0x3FB0_0000, mid, centre);
    lemma_sum_monotone(mid, 0x3FF0_0000, centre);
    lemma_truncation_monotone(0x4301_6000, sum(mid, centre));
    lemma_truncation_monotone(sum(mid, centre), 0x4301_E000);
}

/// A fresh state goes out as: every button released, no touch, the circle
/// pad one step off its centre on both axes, the c-stick one step off its
/// centre on one axis, no auxiliary button.
pub proof fn lemma_frame_at_rest()
    ensures
        circle_pad_word(initial_pad().lx, initial_pad().ly) == 0x0080_1801,
        c_stick_word(initial_pad().rx, initial_pad().ry, initial_pad().ir_buttons) == 0x8081_0081,
        wire_frame(initial_pad()) == seq![
            0xFFu8,
            0x0F,
            0x00,
            0x00,
            0x00,
            0x00,
            0x00,
            0x02,
            0x01,
            0x18,
            0x80,
            0x00,
            0x81,
            0x00,
            0x81,
            0x80,
            0x00,
            0x00,
            0x00,
            0x00,
        ],
{
    lemma_circle_pad_at_rest();
    lemma_c_stick_at_rest();
    lemma_frame_shape(initial_pad());
    let v = initial_pad();
    assert(le_bytes(v.buttons) =~= seq![0xFFu8, 0x0F, 0x00, 0x00]);
    assert(le_bytes(0x0200_0000) =~= seq![0x00u8, 0x00, 0x00, 0x02]);
    assert(le_bytes(0x0080_1801) =~= seq![0x01u8, 0x18, 0x80, 0x00]);
    assert(le_bytes(0x8081_0081) =~= seq![0x81u8, 0x00, 0x81, 0x80]);
    assert(le_bytes(0) =~= seq![0x00u8, 0x00, 0x00, 0x00]);
}

} // verus!
