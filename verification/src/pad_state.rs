//! The snapshot of two sticks and two button fields, and the rules by which
//! input changes it.

use crate::binary32::arith::{difference, minus};
use crate::binary32::{abs, at_least, ge, greater, gt, is_nan, lemma_units_zero, less, lt,
    magnitude, negate, negation, units, value, with_sign, EPSILON};
use crate::constants::hid_bits;
use crate::constants::ir_bits;
use crate::constants::{BUTTONS_RELEASED, MINIMAL_NUDGE_LSTICK, MINIMAL_NUDGE_RSTICK};
use vstd::prelude::*;

verus! {

/// An analog axis of a controller.
#[derive(Debug, Clone, Copy, PartialEq, Eq, Structural)]
pub enum Axis {
    LeftStickX,
    LeftStickY,
    LeftZ,
    RightStickX,
    RightStickY,
    RightZ,
    DPadX,
    DPadY,
    Unknown,
}

/// A button of a controller.
#[derive(Debug, Clone, Copy, PartialEq, Eq, Structural)]
pub enum Button {
    South,
    East,
    North,
    West,
    C,
    Z,
    LeftTrigger,
    LeftTrigger2,
    RightTrigger,
    RightTrigger2,
    Select,
    Start,
    Mode,
    LeftThumb,
    RightThumb,
    DPadUp,
    DPadDown,
    DPadLeft,
    DPadRight,
    Unknown,
}

/// What a [`PadState`] holds: four stick values as binary32 patterns, the
/// twelve-bit active-low button word and the active-high auxiliary field.
pub struct PadView {
    pub lx: u32,
    pub ly: u32,
    pub rx: u32,
    pub ry: u32,
    pub buttons: u32,
    pub ir_buttons: u8,
}

/// The point-in-time state of the pad that is sent to the receiver.
#[derive(Debug, Clone, Copy, PartialEq, Eq)]
pub struct PadState {
    pub(crate) lx: u32,
    pub(crate) ly: u32,
    pub(crate) rx: u32,
    pub(crate) ry: u32,
    pub(crate) buttons: u32,
    pub(crate) ir_buttons: u8,
}

/// Whether the button word keeps to its twelve bits and the auxiliary field
/// to the bits of its two buttons.
pub open spec fn fields_in_range(v: PadView) -> bool {
    &&& v.buttons <= 0xFFF
    &&& v.ir_buttons <= 6
    &&& v.ir_buttons % 2 == 0
}

impl View for PadState {
    type V = PadView;

    closed spec fn view(&self) -> PadView {
        PadView {
            lx: self.lx,
            ly: self.ly,
            rx: self.rx,
            ry: self.ry,
            buttons: self.buttons,
            ir_buttons: self.ir_buttons,
        }
    }
}

/// The state at the start of a session: both sticks at their centre nudge,
/// every button released.
pub open spec fn initial_pad() -> PadView {
    PadView {
        lx: MINIMAL_NUDGE_LSTICK,
        ly: MINIMAL_NUDGE_LSTICK,
        rx: MINIMAL_NUDGE_RSTICK,
        ry: MINIMAL_NUDGE_RSTICK,
        buttons: BUTTONS_RELEASED,
        ir_buttons: 0,
    }
}

/// Whether none of the four stick values is a zero of either sign.
pub open spec fn sticks_off_zero(v: PadView) -> bool {
    magnitude(v.lx) != 0 && magnitude(v.ly) != 0 && magnitude(v.rx) != 0 && magnitude(v.ry) != 0
}

/// Whether `axis` is one of the four stick axes that the state holds.
pub open spec fn is_stick(axis: Axis) -> bool {
    axis == Axis::LeftStickX || axis == Axis::LeftStickY || axis == Axis::RightStickX || axis
        == Axis::RightStickY
}

/// The magnitude that replaces a sample inside the dead zone: one for the
/// right stick, another for everything else.
pub open spec fn nudge_for(axis: Axis) -> u32 {
    if axis == Axis::RightStickX || axis == Axis::RightStickY {
        MINIMAL_NUDGE_RSTICK
    } else {
        MINIMAL_NUDGE_LSTICK
    }
}

/// The calibrated value of the raw sample `value`: inverted if asked, and
/// replaced by the signed nudge when its magnitude lies below `deadzone`.  A
/// zero of either sign takes the positive nudge.
pub open spec fn normalized(axis: Axis, value: u32, inverted: bool, deadzone: u32) -> u32 {
    let v = if inverted {
        negation(value)
    } else {
        value
    };
    if less(magnitude(v), deadzone) {
        if at_least(v, 0) {
            nudge_for(axis)
        } else {
            negation(nudge_for(axis))
        }
    } else {
        v
    }
}

/// Whether `new` is far enough from `old` to count as a change: the rounded
/// difference is larger in magnitude than 2^-23.
pub open spec fn differs(old: u32, new: u32) -> bool {
    greater(magnitude(difference(old, new)), EPSILON)
}

/// The value that `v` holds for the stick axis `axis`.
pub open spec fn stick(v: PadView, axis: Axis) -> u32 {
    match axis {
        Axis::LeftStickX => v.lx,
        Axis::LeftStickY => v.ly,
        Axis::RightStickX => v.rx,
        _ => v.ry,
    }
}

/// `v` with the value of the stick axis `axis` replaced; `v` itself for any
/// other axis.
pub open spec fn with_stick(v: PadView, axis: Axis, value: u32) -> PadView {
    match axis {
        Axis::LeftStickX => PadView { lx: value, ..v },
        Axis::LeftStickY => PadView { ly: value, ..v },
        Axis::RightStickX => PadView { rx: value, ..v },
        Axis::RightStickY => PadView { ry: value, ..v },
        _ => v,
    }
}

/// Whether the sample `value` on `axis` changes the state `v`: the axis is a
/// stick and the calibrated value differs from the stored one.
pub open spec fn axis_changes(v: PadView, axis: Axis, value: u32, inverted: bool, deadzone: u32)
    -> bool {
    is_stick(axis) && differs(stick(v, axis), normalized(axis, value, inverted, deadzone))
}

/// The state `v` after the sample `value` arrived on `axis`.
pub open spec fn axis_applied(v: PadView, axis: Axis, value: u32, inverted: bool, deadzone: u32)
    -> PadView {
    if axis_changes(v, axis, value, inverted, deadzone) {
        with_stick(v, axis, normalized(axis, value, inverted, deadzone))
    } else {
        v
    }
}

/// `word` with bit `bit` cleared.
pub open spec fn bit_cleared(word: u32, bit: u32) -> u32 {
    word & !(1u32 << bit)
}

/// `word` with bit `bit` set.
pub open spec fn bit_raised(word: u32, bit: u32) -> u32 {
    word | (1u32 << bit)
}

/// Whether bit `bit` of `word` is set.
pub open spec fn bit_is_set(word: u32, bit: u32) -> bool {
    (word >> bit) & 1 == 1
}

/// The bit of the active-low button word that `button` drives, if any.
pub open spec fn hid_bit(button: Button) -> Option<u32> {
    match button {
        Button::South => Some(hid_bits::B),
        Button::East => Some(hid_bits::A),
        Button::West => Some(hid_bits::X),
        Button::North => Some(hid_bits::Y),
        Button::DPadUp => Some(hid_bits::DUP),
        Button::DPadDown => Some(hid_bits::DDOWN),
        Button::DPadLeft => Some(hid_bits::DLEFT),
        Button::DPadRight => Some(hid_bits::DRIGHT),
        Button::Select => Some(hid_bits::SELECT),
        Button::Start => Some(hid_bits::START),
        Button::Mode => Some(hid_bits::START),
        Button::LeftTrigger => Some(hid_bits::L),
        Button::RightTrigger => Some(hid_bits::R),
        _ => None,
    }
}

/// The bit of the active-high auxiliary field that `button` drives, if any.
pub open spec fn ir_bit(button: Button) -> Option<u8> {
    match button {
        Button::LeftTrigger2 => Some(ir_bits::ZL),
        Button::RightTrigger2 => Some(ir_bits::ZR),
        _ => None,
    }
}

/// The button word after `button` went down (`pressed`) or up: a press
/// clears the button's bit, a release sets it.
pub open spec fn buttons_after(buttons: u32, button: Button, pressed: bool) -> u32 {
    match hid_bit(button) {
        Some(bit) => if pressed {
            bit_cleared(buttons, bit)
        } else {
            bit_raised(buttons, bit)
        },
        None => buttons,
    }
}

/// The auxiliary field after `button` went down (`pressed`) or up: a press
/// sets the button's bit, a release clears it.
pub open spec fn ir_buttons_after(ir_buttons: u8, button: Button, pressed: bool) -> u8 {
    match ir_bit(button) {
        Some(bit) => if pressed {
            ir_buttons | (1u8 << bit)
        } else {
            ir_buttons & !(1u8 << bit)
        },
        None => ir_buttons,
    }
}

/// The state `v` after `button` went down (`pressed`) or up.
pub open spec fn button_applied(v: PadView, button: Button, pressed: bool) -> PadView {
    PadView {
        buttons: buttons_after(v.buttons, button, pressed),
        ir_buttons: ir_buttons_after(v.ir_buttons, button, pressed),
        ..v
    }
}

/// A sample whose magnitude, after inversion, reaches the dead zone passes
/// unchanged; any other becomes the axis's nudge under the sample's sign, a
/// zero of either sign counting as positive.
pub proof fn lemma_normalized_cases(axis: Axis, raw: u32, inverted: bool, deadzone: u32)
    requires
        !is_nan(raw),
        !is_nan(deadzone),
    ensures
        ({
            let v = if inverted {
                negation(raw)
            } else {
                raw
            };
            let out = normalized(axis, raw, inverted, deadzone);
            &&& units(magnitude(v)) >= value(deadzone) ==> out == v
            &&& units(magnitude(v)) < value(deadzone) ==> out == with_sign(
                value(v) < 0,
                nudge_for(axis),
            )
        }),
{
    let v = if inverted {
        negation(raw)
    } else {
        raw
    };
    lemma_units_zero(0);
    lemma_units_zero(magnitude(v));
}

/// Under a dead zone above zero no calibrated value is a zero: what the dead
/// zone swallows becomes a nudge.
pub proof fn lemma_normalized_never_zero(axis: Axis, raw: u32, inverted: bool, deadzone: u32)
    requires
        !is_nan(deadzone),
        value(deadzone) > 0,
    ensures
        magnitude(normalized(axis, raw, inverted, deadzone)) != 0,
{
    let v = if inverted {
        negation(raw)
    } else {
        raw
    };
    if !is_nan(v) {
        lemma_units_zero(magnitude(v));
    }
}

/// A button event changes the one bit that the button drives, to clear for a
/// press and to set for a release in the active-low word and the other way
/// round in the auxiliary field.  Every other bit of both fields and all four
/// sticks stay as they were.
pub proof fn lemma_button_touches_one_bit(v: PadView, button: Button, pressed: bool, bit: u32)
    requires
        bit < 32,
    ensures
        ({
            let after = button_applied(v, button, pressed);
            &&& after.lx == v.lx && after.ly == v.ly && after.rx == v.rx && after.ry == v.ry
            &&& hid_bit(button) == Some(bit) ==> bit_is_set(after.buttons, bit) == !pressed
            &&& hid_bit(button) != Some(bit) ==> bit_is_set(after.buttons, bit) == bit_is_set(
                v.buttons,
                bit,
            )
            &&& ir_bit(button) == Some(bit as u8) ==> bit_is_set(after.ir_buttons as u32, bit)
                == pressed
            &&& ir_bit(button) != Some(bit as u8) ==> bit_is_set(after.ir_buttons as u32, bit)
                == bit_is_set(v.ir_buttons as u32, bit)
        }),
{
    let word = v.buttons;
    let field = v.ir_buttons;
    assert(forall|b: u32|
        b < 32 ==> ((#[trigger] (word & !(1u32 << b)) >> bit) & 1 == 1) == (if b == bit {
            false
        } else {
            (word >> bit) & 1 == 1
        })) by (bit_vector)
        requires
            bit < 32,
    ;
    assert(forall|b: u32|
        b < 32 ==> ((#[trigger] (word | (1u32 << b)) >> bit) & 1 == 1) == (if b == bit {
            true
        } else {
            (word >> bit) & 1 == 1
        })) by (bit_vector)
        requires
            bit < 32,
    ;
    assert(forall|b: u8|
        b < 8 ==> (((#[trigger] (field & !(1u8 << b))) as u32 >> bit) & 1 == 1) == (if b as u32
            == bit {
            false
        } else {
            ((field as u32) >> bit) & 1 == 1
        })) by (bit_vector)
        requires
            bit < 32,
    ;
    assert(forall|b: u8|
        b < 8 ==> (((#[trigger] (field | (1u8 << b))) as u32 >> bit) & 1 == 1) == (if b as u32
            == bit {
            true
        } else {
            ((field as u32) >> bit) & 1 == 1
        })) by (bit_vector)
        requires
            bit < 32,
    ;
}

/// The button fields start in range and no button event takes them out of
/// it.
pub proof fn lemma_buttons_stay_in_range(v: PadView, button: Button, pressed: bool)
    ensures
        fields_in_range(initial_pad()),
        fields_in_range(v) ==> fields_in_range(button_applied(v, button, pressed)),
{
    let word = v.buttons;
    let field = v.ir_buttons;
    assert(forall|b: u32| b < 12 && word <= 0xFFF ==> #[trigger] (word & !(1u32 << b)) <= 0xFFF)
        by (bit_vector);
    assert(forall|b: u32| b < 12 && word <= 0xFFF ==> #[trigger] (word | (1u32 << b)) <= 0xFFF)
        by (bit_vector);
    assert(forall|b: u8|
        (b == 1 || b == 2) && field <= 6 && field % 2 == 0 ==> #[trigger] (field | (1u8 << b))
            <= 6 && (field | (1u8 << b)) % 2 == 0) by (bit_vector);
    assert(forall|b: u8|
        (b == 1 || b == 2) && field <= 6 && field % 2 == 0 ==> #[trigger] (field & !(1u8 << b))
            <= 6 && (field & !(1u8 << b)) % 2 == 0) by (bit_vector);
}

/// Pressing a button that was up and releasing it again restores the state.
pub proof fn lemma_press_then_release(v: PadView, button: Button)
    requires
        hid_bit(button) matches Some(bit) ==> bit_is_set(v.buttons, bit),
        ir_bit(button) matches Some(bit) ==> !bit_is_set(v.ir_buttons as u32, bit as u32),
    ensures
        button_applied(button_applied(v, button, true), button, false) == v,
{
    let word = v.buttons;
    let field = v.ir_buttons;
    assert(forall|b: u32|
        b < 32 && (word >> b) & 1 == 1 ==> #[trigger] ((word & !(1u32 << b)) | (1u32 << b))
            == word) by (bit_vector);
    assert(forall|b: u8|
        b < 8 && ((field as u32) >> (b as u32)) & 1 != 1 ==> #[trigger] ((field | (1u8 << b)) & !(
        1u8 << b)) == field) by (bit_vector);
}

/// Calibrates one raw sample: inversion, dead zone, nudge.
pub fn normalize(axis: Axis, value: u32, inverted: bool, deadzone: u32) -> (r: u32)
    ensures
        r == normalized(axis, value, inverted, deadzone),
{
    let v = if inverted {
        negate(value)
    } else {
        value
    };
    if lt(abs(v), deadzone) {
        let nudge = match axis {
            Axis::RightStickX | Axis::RightStickY => MINIMAL_NUDGE_RSTICK,
            _ => MINIMAL_NUDGE_LSTICK,
        };
        if ge(v, 0) {
            nudge
        } else {
            negate(nudge)
        }
    } else {
        v
    }
}

/// Whether `new` differs from `old` by more than 2^-23.
pub fn changed_beyond_epsilon(old: u32, new: u32) -> (r: bool)
    ensures
        r == differs(old, new),
{
    gt(abs(minus(old, new)), EPSILON)
}

fn hid_bit_of(button: Button) -> (r: Option<u32>)
    ensures
        r == hid_bit(button),
{
    match button {
        Button::South => Some(hid_bits::B),
        Button::East => Some(hid_bits::A),
        Button::West => Some(hid_bits::X),
        Button::North => Some(hid_bits::Y),
        Button::DPadUp => Some(hid_bits::DUP),
        Button::DPadDown => Some(hid_bits::DDOWN),
        Button::DPadLeft => Some(hid_bits::DLEFT),
        Button::DPadRight => Some(hid_bits::DRIGHT),
        Button::Select => Some(hid_bits::SELECT),
        Button::Start | Button::Mode => Some(hid_bits::START),
        Button::LeftTrigger => Some(hid_bits::L),
        Button::RightTrigger => Some(hid_bits::R),
        _ => None,
    }
}

impl PadState {
    #[verifier::type_invariant]
    spec fn in_range(&self) -> bool {
        &&& self.buttons <= 0xFFF
        &&& self.ir_buttons <= 6
        &&& self.ir_buttons % 2 == 0
    }

    /// The state at the start of a session: both sticks at their centre
    /// nudge, every button released.
    pub fn new() -> (s: Self)
        ensures
            s@ == initial_pad(),
    {
        Self {
            lx: MINIMAL_NUDGE_LSTICK,
            ly: MINIMAL_NUDGE_LSTICK,
            rx: MINIMAL_NUDGE_RSTICK,
            ry: MINIMAL_NUDGE_RSTICK,
            buttons: BUTTONS_RELEASED,
            ir_buttons: 0,
        }
    }

    /// The left stick's horizontal value, a binary32 pattern.
    pub fn lx(&self) -> (r: u32)
        ensures
            r == self@.lx,
    {
        self.lx
    }

    /// The left stick's vertical value, a binary32 pattern.
    pub fn ly(&self) -> (r: u32)
        ensures
            r == self@.ly,
    {
        self.ly
    }

    /// The right stick's horizontal value, a binary32 pattern.
    pub fn rx(&self) -> (r: u32)
        ensures
            r == self@.rx,
    {
        self.rx
    }

    /// The right stick's vertical value, a binary32 pattern.
    pub fn ry(&self) -> (r: u32)
        ensures
            r == self@.ry,
    {
        self.ry
    }

    /// The active-low button word; it keeps to twelve bits.
    pub fn buttons(&self) -> (r: u32)
        ensures
            r == self@.buttons,
            fields_in_range(self@),
    {
        proof {
            use_type_invariant(self);
        }
        self.buttons
    }

    /// The active-high auxiliary field; it keeps to the bits of its two
    /// buttons.
    pub fn ir_buttons(&self) -> (r: u8)
        ensures
            r == self@.ir_buttons,
            fields_in_range(self@),
    {
        proof {
            use_type_invariant(self);
        }
        self.ir_buttons
    }

    /// Applies inversion and dead zone to one raw sample and stores the
    /// result in the axis's field if it differs from the stored value by more
    /// than 2^-23.  Returns whether it stored.  An axis that is no stick
    /// changes nothing.
    pub fn apply_axis(&mut self, axis: Axis, value: u32, inverted: bool, deadzone: u32) -> (changed:
        bool)
        ensures
            changed == axis_changes(old(self)@, axis, value, inverted, deadzone),
            final(self)@ == axis_applied(old(self)@, axis, value, inverted, deadzone),
    {
        proof {
            use_type_invariant(&*self);
        }
        let adjusted = normalize(axis, value, inverted, deadzone);
        match axis {
            Axis::LeftStickX => {
                if changed_beyond_epsilon(self.lx, adjusted) {
                    self.lx = adjusted;
                    true
                } else {
                    false
                }
            },
            Axis::LeftStickY => {
                if changed_beyond_epsilon(self.ly, adjusted) {
                    self.ly = adjusted;
                    true
                } else {
                    false
                }
            },
            Axis::RightStickX => {
                if changed_beyond_epsilon(self.rx, adjusted) {
                    self.rx = adjusted;
                    true
                } else {
                    false
                }
            },
            Axis::RightStickY => {
                if changed_beyond_epsilon(self.ry, adjusted) {
                    self.ry = adjusted;
                    true
                } else {
                    false
                }
            },
            _ => false,
        }
    }

    /// Records that `button` went down (`pressed`) or up.  A button that the
    /// receiver does not have changes nothing.
    pub fn update_button(&mut self, button: Button, pressed: bool)
        ensures
            final(self)@ == button_applied(old(self)@, button, pressed),
    {
        proof {
            use_type_invariant(&*self);
            lemma_buttons_stay_in_range(self@, button, pressed);
        }
        match hid_bit_of(button) {
            Some(bit) => {
                if pressed {
                    self.buttons = self.buttons & !(1u32 << bit);
                } else {
                    self.buttons = self.buttons | (1u32 << bit);
                }
            },
            None => {
                match button {
                    Button::LeftTrigger2 => {
                        if pressed {
                            self.ir_buttons = self.ir_buttons | (1u8 << ir_bits::ZL);
                        } else {
                            self.ir_buttons = self.ir_buttons & !(1u8 << ir_bits::ZL);
                        }
                    },
                    Button::RightTrigger2 => {
                        if pressed {
                            self.ir_buttons = self.ir_buttons | (1u8 << ir_bits::ZR);
                        } else {
                            self.ir_buttons = self.ir_buttons & !(1u8 << ir_bits::ZR);
                        }
                    },
                    _ => {},
                }
            },
        }
    }
}

} // verus!
