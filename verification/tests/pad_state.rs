//! Calibration of samples, the stored sticks and the button mapping.

use input_redirection::constants::{MINIMAL_NUDGE_LSTICK, MINIMAL_NUDGE_RSTICK};
use input_redirection::pad_state::{changed_beyond_epsilon, normalize, Axis, Button, PadState};

const NUDGE_L: f32 = 0.001;
const NUDGE_R: f32 = 0.008;

const STICKS: [Axis; 4] =
    [Axis::LeftStickX, Axis::LeftStickY, Axis::RightStickX, Axis::RightStickY];

const ALL_AXES: [Axis; 9] = [
    Axis::LeftStickX,
    Axis::LeftStickY,
    Axis::LeftZ,
    Axis::RightStickX,
    Axis::RightStickY,
    Axis::RightZ,
    Axis::DPadX,
    Axis::DPadY,
    Axis::Unknown,
];

struct Patterns(u64);

impl Patterns {
    fn next(&mut self) -> u32 {
        self.0 = self.0.wrapping_mul(6364136223846793005).wrapping_add(1442695040888963407);
        (self.0 >> 32) as u32
    }

    /// A sample in [-1, 1], as a stick gives it.
    fn sample(&mut self) -> f32 {
        (self.next() as f64 / u32::MAX as f64 * 2.0 - 1.0) as f32
    }
}

/// The calibration written with the machine's floating point.
fn normalize_in_floats(axis: Axis, value: f32, inverted: bool, deadzone: f32) -> f32 {
    let in_val = if inverted { -value } else { value };
    if in_val.abs() < deadzone {
        match axis {
            Axis::RightStickX | Axis::RightStickY => {
                if in_val >= 0.0 {
                    NUDGE_R
                } else {
                    -NUDGE_R
                }
            }
            _ => {
                if in_val >= 0.0 {
                    NUDGE_L
                } else {
                    -NUDGE_L
                }
            }
        }
    } else {
        in_val
    }
}

fn norm(axis: Axis, value: f32, inverted: bool, deadzone: f32) -> f32 {
    f32::from_bits(normalize(axis, value.to_bits(), inverted, deadzone.to_bits()))
}

#[test]
fn nudge_constants_are_the_nearest_patterns() {
    assert_eq!(MINIMAL_NUDGE_LSTICK, 0.001f32.to_bits());
    assert_eq!(MINIMAL_NUDGE_RSTICK, 0.008f32.to_bits());
}

#[test]
fn fresh_state_is_centred_and_released() {
    let st = PadState::new();
    assert_eq!(st.lx(), 0.001f32.to_bits());
    assert_eq!(st.ly(), 0.001f32.to_bits());
    assert_eq!(st.rx(), 0.008f32.to_bits());
    assert_eq!(st.ry(), 0.008f32.to_bits());
    assert_eq!(st.buttons(), 0xFFF);
    assert_eq!(st.ir_buttons(), 0);
}

#[test]
fn sample_outside_dead_zone_passes_unchanged() {
    assert_eq!(norm(Axis::LeftStickX, 0.5, false, 0.1), 0.5);
    assert_eq!(norm(Axis::RightStickY, -0.75, false, 0.1), -0.75);
    assert_eq!(norm(Axis::LeftStickY, 1.0, false, 0.5), 1.0);
    // The dead zone itself is outside.
    assert_eq!(norm(Axis::LeftStickX, 0.1, false, 0.1), 0.1);
    assert_eq!(norm(Axis::LeftStickX, -0.1, false, 0.1), -0.1);
}

#[test]
fn inversion_flips_the_sign() {
    assert_eq!(norm(Axis::LeftStickX, 0.5, true, 0.1), -0.5);
    assert_eq!(norm(Axis::RightStickX, -0.25, true, 0.1), 0.25);
    assert_eq!(norm(Axis::LeftStickX, 0.05, true, 0.1), -0.001);
}

#[test]
fn sample_inside_dead_zone_becomes_the_signed_nudge() {
    assert_eq!(norm(Axis::LeftStickX, 0.05, false, 0.1), 0.001);
    assert_eq!(norm(Axis::LeftStickY, -0.05, false, 0.1), -0.001);
    assert_eq!(norm(Axis::RightStickX, 0.05, false, 0.1), 0.008);
    assert_eq!(norm(Axis::RightStickY, -0.05, false, 0.1), -0.008);
}

#[test]
fn zero_of_either_sign_takes_the_positive_nudge() {
    assert_eq!(norm(Axis::LeftStickX, 0.0, false, 0.1).to_bits(), 0.001f32.to_bits());
    assert_eq!(norm(Axis::LeftStickX, -0.0, false, 0.1).to_bits(), 0.001f32.to_bits());
    assert_eq!(norm(Axis::RightStickX, 0.0, true, 0.1).to_bits(), 0.008f32.to_bits());
}

#[test]
fn dead_zone_of_zero_swallows_nothing() {
    assert_eq!(norm(Axis::LeftStickX, 0.0, false, 0.0).to_bits(), 0.0f32.to_bits());
    assert_eq!(norm(Axis::LeftStickX, 1.0e-30, false, 0.0), 1.0e-30);
}

#[test]
fn unusable_dead_zone_does_not_break_calibration() {
    assert_eq!(norm(Axis::LeftStickX, 0.5, false, f32::NAN), 0.5);
    assert_eq!(norm(Axis::LeftStickX, 0.5, false, -1.0), 0.5);
    assert_eq!(norm(Axis::LeftStickX, 0.5, false, 2.0), 0.001);
    assert!(norm(Axis::LeftStickX, f32::NAN, false, 0.1).is_nan());
}

#[test]
fn calibration_agrees_with_floating_point() {
    let mut g = Patterns(11);
    for _ in 0..100_000 {
        let axis = ALL_AXES[(g.next() % 9) as usize];
        let value = g.sample();
        let inverted = g.next() % 2 == 0;
        let deadzone = (g.next() % 1000) as f32 / 1000.0;
        let ours = norm(axis, value, inverted, deadzone);
        let theirs = normalize_in_floats(axis, value, inverted, deadzone);
        assert_eq!(ours.to_bits(), theirs.to_bits(), "{axis:?} {value} {inverted} {deadzone}");
    }
}

#[test]
fn calibration_agrees_with_floating_point_on_any_pattern() {
    let mut g = Patterns(12);
    for _ in 0..100_000 {
        let axis = ALL_AXES[(g.next() % 9) as usize];
        let value = f32::from_bits(g.next());
        let inverted = g.next() % 2 == 0;
        let deadzone = f32::from_bits(g.next());
        let ours = normalize(axis, value.to_bits(), inverted, deadzone.to_bits());
        let theirs = normalize_in_floats(axis, value, inverted, deadzone);
        if theirs.is_nan() {
            assert!(f32::from_bits(ours).is_nan());
        } else {
            assert_eq!(ours, theirs.to_bits());
        }
    }
}

#[test]
fn change_is_measured_against_epsilon() {
    let one = 1.0f32.to_bits();
    // The next number after one is exactly epsilon away: no change.
    assert!(!changed_beyond_epsilon(one, (1.0f32 + f32::EPSILON).to_bits()));
    assert!(changed_beyond_epsilon(one, (1.0f32 + 2.0 * f32::EPSILON).to_bits()));
    assert!(!changed_beyond_epsilon(one, one));
    assert!(changed_beyond_epsilon(0.001f32.to_bits(), (-0.001f32).to_bits()));
    assert!(!changed_beyond_epsilon(one, f32::NAN.to_bits()));
    assert!(!changed_beyond_epsilon(f32::INFINITY.to_bits(), f32::INFINITY.to_bits()));
}

#[test]
fn change_agrees_with_floating_point() {
    let mut g = Patterns(13);
    for _ in 0..200_000 {
        let a = g.sample();
        // Often close to `a`, so that the threshold is exercised.
        let b = if g.next() % 2 == 0 {
            g.sample()
        } else {
            a + (g.next() % 64) as f32 * (f32::EPSILON / 16.0)
        };
        let theirs = (a - b).abs() > f32::EPSILON;
        assert_eq!(changed_beyond_epsilon(a.to_bits(), b.to_bits()), theirs, "{a} {b}");
    }
}

#[test]
fn apply_axis_stores_what_changed() {
    let mut st = PadState::new();
    assert!(st.apply_axis(Axis::LeftStickX, 0.5f32.to_bits(), false, 0.1f32.to_bits()));
    assert_eq!(st.lx(), 0.5f32.to_bits());
    assert_eq!(st.ly(), 0.001f32.to_bits());
    assert!(st.apply_axis(Axis::LeftStickY, 0.25f32.to_bits(), true, 0.1f32.to_bits()));
    assert_eq!(st.ly(), (-0.25f32).to_bits());
    assert!(st.apply_axis(Axis::RightStickX, (-1.0f32).to_bits(), false, 0.1f32.to_bits()));
    assert_eq!(st.rx(), (-1.0f32).to_bits());
    assert!(st.apply_axis(Axis::RightStickY, 0.9f32.to_bits(), false, 0.1f32.to_bits()));
    assert_eq!(st.ry(), 0.9f32.to_bits());
    assert_eq!(st.buttons(), 0xFFF);
    assert_eq!(st.ir_buttons(), 0);
}

#[test]
fn apply_axis_reports_no_change_for_the_stored_value() {
    let mut st = PadState::new();
    // The stick rests inside the dead zone: the nudge is already stored.
    assert!(!st.apply_axis(Axis::LeftStickX, 0.02f32.to_bits(), false, 0.1f32.to_bits()));
    assert_eq!(st.lx(), 0.001f32.to_bits());
    assert!(st.apply_axis(Axis::LeftStickX, 0.5f32.to_bits(), false, 0.1f32.to_bits()));
    assert!(!st.apply_axis(Axis::LeftStickX, 0.5f32.to_bits(), false, 0.1f32.to_bits()));
    // Back into the dead zone on the negative side.
    assert!(st.apply_axis(Axis::LeftStickX, (-0.02f32).to_bits(), false, 0.1f32.to_bits()));
    assert_eq!(st.lx(), (-0.001f32).to_bits());
}

#[test]
fn apply_axis_ignores_axes_that_are_no_stick() {
    for axis in [Axis::LeftZ, Axis::RightZ, Axis::DPadX, Axis::DPadY, Axis::Unknown] {
        let mut st = PadState::new();
        assert!(!st.apply_axis(axis, 0.9f32.to_bits(), false, 0.1f32.to_bits()));
        assert_eq!(st, PadState::new());
    }
}

#[test]
fn apply_axis_never_stores_a_nan() {
    let mut st = PadState::new();
    for axis in STICKS {
        assert!(!st.apply_axis(axis, f32::NAN.to_bits(), false, 0.1f32.to_bits()));
    }
    assert_eq!(st, PadState::new());
}

#[test]
fn apply_axis_agrees_with_floating_point() {
    let mut g = Patterns(14);
    let mut st = PadState::new();
    let mut sticks = [NUDGE_L, NUDGE_L, NUDGE_R, NUDGE_R];
    for _ in 0..100_000 {
        let which = (g.next() % 4) as usize;
        let value = g.sample();
        let inverted = g.next() % 2 == 0;
        let deadzone = (g.next() % 500) as f32 / 1000.0;
        let adjusted = normalize_in_floats(STICKS[which], value, inverted, deadzone);
        let expect = (sticks[which] - adjusted).abs() > f32::EPSILON;
        if expect {
            sticks[which] = adjusted;
        }
        let changed = st.apply_axis(STICKS[which], value.to_bits(), inverted, deadzone.to_bits());
        assert_eq!(changed, expect);
        assert_eq!(
            [st.lx(), st.ly(), st.rx(), st.ry()],
            [
                sticks[0].to_bits(),
                sticks[1].to_bits(),
                sticks[2].to_bits(),
                sticks[3].to_bits()
            ]
        );
    }
}

#[test]
fn active_low_buttons_clear_their_bit_when_pressed() {
    let table = [
        (Button::East, 0),
        (Button::South, 1),
        (Button::Select, 2),
        (Button::Start, 3),
        (Button::Mode, 3),
        (Button::DPadRight, 4),
        (Button::DPadLeft, 5),
        (Button::DPadUp, 6),
        (Button::DPadDown, 7),
        (Button::RightTrigger, 8),
        (Button::LeftTrigger, 9),
        (Button::West, 10),
        (Button::North, 11),
    ];
    for (button, bit) in table {
        let mut st = PadState::new();
        st.update_button(button, true);
        assert_eq!(st.buttons(), 0xFFF & !(1 << bit), "{button:?}");
        assert_eq!(st.ir_buttons(), 0);
        st.update_button(button, false);
        assert_eq!(st.buttons(), 0xFFF, "{button:?}");
    }
}

#[test]
fn secondary_shoulders_set_their_bit_when_pressed() {
    let mut st = PadState::new();
    st.update_button(Button::LeftTrigger2, true);
    assert_eq!(st.ir_buttons(), 0b100);
    st.update_button(Button::RightTrigger2, true);
    assert_eq!(st.ir_buttons(), 0b110);
    assert_eq!(st.buttons(), 0xFFF);
    st.update_button(Button::LeftTrigger2, false);
    assert_eq!(st.ir_buttons(), 0b010);
    st.update_button(Button::RightTrigger2, false);
    assert_eq!(st.ir_buttons(), 0);
}

#[test]
fn buttons_that_the_receiver_lacks_change_nothing() {
    for button in
        [Button::C, Button::Z, Button::LeftThumb, Button::RightThumb, Button::Unknown]
    {
        let mut st = PadState::new();
        st.update_button(button, true);
        assert_eq!(st, PadState::new());
        st.update_button(button, false);
        assert_eq!(st, PadState::new());
    }
}

#[test]
fn south_press_and_release_toggle_only_the_b_bit() {
    let mut st = PadState::new();
    st.update_button(Button::North, true);
    st.update_button(Button::LeftTrigger2, true);
    st.apply_axis(Axis::LeftStickX, 0.5f32.to_bits(), false, 0.1f32.to_bits());
    let before = st;
    st.update_button(Button::South, true);
    assert_eq!(st.buttons() ^ before.buttons(), 1 << 1);
    assert_eq!(st.buttons() & (1 << 1), 0);
    assert_eq!(st.ir_buttons(), before.ir_buttons());
    assert_eq!(st.lx(), before.lx());
    st.update_button(Button::South, false);
    assert_eq!(st, before);
}

#[test]
fn start_and_mode_share_a_bit() {
    let mut st = PadState::new();
    st.update_button(Button::Start, true);
    st.update_button(Button::Mode, false);
    assert_eq!(st.buttons(), 0xFFF);
    st.update_button(Button::Mode, true);
    assert_eq!(st.buttons(), 0xFF7);
}

#[test]
fn repeated_press_keeps_the_bit_clear() {
    let mut st = PadState::new();
    st.update_button(Button::East, true);
    st.update_button(Button::East, true);
    assert_eq!(st.buttons(), 0xFFE);
    st.update_button(Button::West, false);
    assert_eq!(st.buttons(), 0xFFE);
}
