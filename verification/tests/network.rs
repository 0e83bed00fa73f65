//! The wire frame and the send policies.

use input_redirection::constants::{
    CPAD_BOUND, CPAD_CENTER_OFFSET, CPP_BOUND, CPP_CENTER_OFFSET, ROT_CPP_BOUND, TARGET_PORT,
};
use input_redirection::network::{
    blank, clamp_u12, clamp_u8, encode, white_space, SendPolicy, Sender,
};
use input_redirection::pad_state::{Axis, Button, PadState};

struct Patterns(u64);

impl Patterns {
    fn next(&mut self) -> u32 {
        self.0 = self.0.wrapping_mul(6364136223846793005).wrapping_add(1442695040888963407);
        (self.0 >> 32) as u32
    }

    fn sample(&mut self) -> f32 {
        (self.next() as f64 / u32::MAX as f64 * 2.0 - 1.0) as f32
    }
}

/// A state with the given sticks, stored with no dead zone.
fn state_with(lx: f32, ly: f32, rx: f32, ry: f32) -> PadState {
    let mut st = PadState::new();
    st.apply_axis(Axis::LeftStickX, lx.to_bits(), false, 0);
    st.apply_axis(Axis::LeftStickY, ly.to_bits(), false, 0);
    st.apply_axis(Axis::RightStickX, rx.to_bits(), false, 0);
    st.apply_axis(Axis::RightStickY, ry.to_bits(), false, 0);
    st
}

/// The frame written with the machine's floating point.
fn frame_in_floats(st: &PadState) -> [u8; 20] {
    let (lx, ly) = (f32::from_bits(st.lx()), f32::from_bits(st.ly()));
    let (rx, ry) = (f32::from_bits(st.rx()), f32::from_bits(st.ry()));
    let cpad_bound = 0x5D0 as f32;
    let rot_cpp_bound = std::f32::consts::FRAC_1_SQRT_2 * 0x7F as f32;
    let clamp12 = |x: i32| x.clamp(0, 0xFFF) as u32;
    let clamp8 = |x: i32| x.clamp(0, 0xFF) as u32;
    let x_cpad = (lx * cpad_bound + 0x800 as f32) as i32;
    let y_cpad = (ly * cpad_bound + 0x800 as f32) as i32;
    let circle = (clamp12(y_cpad) << 12) | clamp12(x_cpad);
    let calculated_rx = (rx + ry) * rot_cpp_bound + 0x80 as f32;
    let calculated_ry = (ry - rx) * rot_cpp_bound + 0x80 as f32;
    let c_stick = (clamp8(calculated_ry as i32) << 24)
        | (clamp8(calculated_rx as i32) << 16)
        | ((st.ir_buttons() as u32) << 8)
        | 0x81;
    let mut out = [0u8; 20];
    out[0..4].copy_from_slice(&st.buttons().to_le_bytes());
    out[4..8].copy_from_slice(&0x0200_0000u32.to_le_bytes());
    out[8..12].copy_from_slice(&circle.to_le_bytes());
    out[12..16].copy_from_slice(&c_stick.to_le_bytes());
    out
}

fn word(frame: &[u8; 20], index: usize) -> u32 {
    u32::from_le_bytes([
        frame[4 * index],
        frame[4 * index + 1],
        frame[4 * index + 2],
        frame[4 * index + 3],
    ])
}

#[test]
fn constants_are_the_patterns_of_their_numbers() {
    assert_eq!(TARGET_PORT, 4950);
    assert_eq!(CPAD_BOUND, 1488.0f32.to_bits());
    assert_eq!(CPP_BOUND, 127.0f32.to_bits());
    assert_eq!(CPAD_CENTER_OFFSET, 2048.0f32.to_bits());
    assert_eq!(CPP_CENTER_OFFSET, 128.0f32.to_bits());
    assert_eq!(ROT_CPP_BOUND, (std::f32::consts::FRAC_1_SQRT_2 * 127.0f32).to_bits());
}

#[test]
fn clamp_u12_saturates() {
    assert_eq!(clamp_u12(-1), 0);
    assert_eq!(clamp_u12(i32::MIN), 0);
    assert_eq!(clamp_u12(0), 0);
    assert_eq!(clamp_u12(2049), 2049);
    assert_eq!(clamp_u12(0xFFF), 0xFFF);
    assert_eq!(clamp_u12(0x1000), 0xFFF);
    assert_eq!(clamp_u12(i32::MAX), 0xFFF);
}

#[test]
fn clamp_u8_saturates() {
    assert_eq!(clamp_u8(-1), 0);
    assert_eq!(clamp_u8(i32::MIN), 0);
    assert_eq!(clamp_u8(0), 0);
    assert_eq!(clamp_u8(129), 129);
    assert_eq!(clamp_u8(0xFF), 0xFF);
    assert_eq!(clamp_u8(0x100), 0xFF);
    assert_eq!(clamp_u8(i32::MAX), 0xFF);
}

#[test]
fn fresh_state_encodes_near_centre() {
    let frame = encode(&PadState::new());
    assert_eq!(
        frame,
        [
            0xFF, 0x0F, 0x00, 0x00, // every button released
            0x00, 0x00, 0x00, 0x02, // no touch input
            0x01, 0x18, 0x80, 0x00, // circle pad: 2049 on both axes
            0x81, 0x00, 0x81, 0x80, // c-stick: 129 and 128, no auxiliary button
            0x00, 0x00, 0x00, 0x00,
        ]
    );
    assert_eq!(word(&frame, 0), 0xFFF);
    assert_eq!(word(&frame, 2) & 0xFFF, 0x801);
    assert_eq!(word(&frame, 2) >> 12, 0x801);
    assert_eq!((word(&frame, 3) >> 8) & 0xFF, 0);
}

#[test]
fn words_are_little_endian() {
    let mut st = PadState::new();
    st.update_button(Button::East, true);
    st.update_button(Button::North, true);
    let frame = encode(&st);
    // 0x7FE: the low byte comes first.
    assert_eq!(&frame[0..4], &[0xFE, 0x07, 0x00, 0x00]);
    assert_eq!(&frame[4..8], &[0x00, 0x00, 0x00, 0x02]);
    assert_eq!(&frame[16..20], &[0, 0, 0, 0]);
}

#[test]
fn full_deflection_reaches_the_bounds() {
    let frame = encode(&state_with(1.0, -1.0, 1.0, 0.0));
    // 2048 + 1488 and 2048 - 1488.
    assert_eq!(word(&frame, 2) & 0xFFF, 0xDD0);
    assert_eq!(word(&frame, 2) >> 12, 0x230);
    // 128 + 89.8 and 128 - 89.8, the fraction dropped.
    assert_eq!((word(&frame, 3) >> 16) & 0xFF, 217);
    assert_eq!(word(&frame, 3) >> 24, 38);
    assert_eq!(word(&frame, 3) & 0xFF, 0x81);
}

#[test]
fn diagonal_right_stick_moves_one_rotated_axis() {
    let frame = encode(&state_with(0.5, 0.5, 1.0, 1.0));
    // rx + ry = 2: 128 + 179.6 saturates; ry - rx = 0: the centre.
    assert_eq!((word(&frame, 3) >> 16) & 0xFF, 0xFF);
    assert_eq!(word(&frame, 3) >> 24, 128);
    let frame = encode(&state_with(0.5, 0.5, 1.0, -1.0));
    assert_eq!((word(&frame, 3) >> 16) & 0xFF, 128);
    assert_eq!(word(&frame, 3) >> 24, 0);
}

#[test]
fn extreme_sticks_saturate() {
    let frame = encode(&state_with(1000.0, -1000.0, 1000.0, -1000.0));
    assert_eq!(frame.len(), 20);
    assert_eq!(word(&frame, 2) & 0xFFF, 0xFFF);
    assert_eq!(word(&frame, 2) >> 12, 0);
    assert_eq!(frame, frame_in_floats(&state_with(1000.0, -1000.0, 1000.0, -1000.0)));
    let frame = encode(&state_with(-1000.0, 1000.0, 1000.0, 1000.0));
    assert_eq!(word(&frame, 2) & 0xFFF, 0);
    assert_eq!(word(&frame, 2) >> 12, 0xFFF);
    assert_eq!((word(&frame, 3) >> 16) & 0xFF, 0xFF);
    assert_eq!(word(&frame, 3) >> 24, 128);
    let huge = state_with(f32::MAX, f32::MIN, f32::INFINITY, f32::INFINITY);
    assert_eq!(encode(&huge), frame_in_floats(&huge));
    let opposed = state_with(f32::INFINITY, f32::NEG_INFINITY, f32::INFINITY, f32::NEG_INFINITY);
    assert_eq!(encode(&opposed), frame_in_floats(&opposed));
}

#[test]
fn auxiliary_buttons_sit_in_the_second_byte_of_the_c_stick_word() {
    let mut st = PadState::new();
    st.update_button(Button::LeftTrigger2, true);
    assert_eq!(encode(&st)[13], 0b100);
    st.update_button(Button::RightTrigger2, true);
    assert_eq!(encode(&st)[13], 0b110);
    assert_eq!(encode(&st)[12], 0x81);
}

#[test]
fn frames_agree_with_floating_point() {
    let mut g = Patterns(21);
    for _ in 0..50_000 {
        let mut st = state_with(g.sample(), g.sample(), g.sample(), g.sample());
        if g.next() % 2 == 0 {
            st.update_button(Button::South, true);
        }
        if g.next() % 2 == 0 {
            st.update_button(Button::RightTrigger2, true);
        }
        assert_eq!(encode(&st), frame_in_floats(&st));
    }
}

#[test]
fn frames_agree_with_floating_point_on_any_pattern() {
    let mut g = Patterns(22);
    for _ in 0..50_000 {
        let st = state_with(
            f32::from_bits(g.next()),
            f32::from_bits(g.next()),
            f32::from_bits(g.next()),
            f32::from_bits(g.next()),
        );
        assert_eq!(encode(&st), frame_in_floats(&st));
    }
}

#[test]
fn white_space_is_what_the_standard_library_calls_white_space() {
    for n in 0..=0x10FFFFu32 {
        if let Some(c) = char::from_u32(n) {
            assert_eq!(white_space(c), c.is_whitespace(), "U+{n:04X}");
        }
    }
}

#[test]
fn blank_is_empty_after_trimming() {
    for s in ["", " ", "\t\n ", "\u{3000}\u{A0}", "192.168.1.5", "  10.0.0.2 ", "a", " \u{200B}"] {
        assert_eq!(blank(s), s.trim().is_empty(), "{s:?}");
    }
}

#[test]
fn unconditional_policy_sends_every_time() {
    let mut sender = Sender::new("192.168.1.5".to_string());
    let st = PadState::new();
    let mut sent = 0;
    for now in [0u64, 0, 1, 1, 2, 49, 50, 50, 1000] {
        let d = sender.send(&st, SendPolicy::Unconditional, now);
        assert!(d.is_some());
        sent += 1;
    }
    assert_eq!(sent, 9);
    let d = sender.send_state(&st, 1000);
    assert_eq!(d.payload, encode(&st));
}

#[test]
fn unconditional_policy_sends_without_a_destination() {
    let mut sender = Sender::new(String::new());
    let d = sender.send(&PadState::new(), SendPolicy::Unconditional, 5).unwrap();
    assert_eq!(d.host, "");
    assert_eq!(d.port, 4950);
}

#[test]
fn throttled_policy_sends_once_in_fifty_milliseconds() {
    let mut sender = Sender::new("192.168.1.5".to_string());
    let st = PadState::new();
    assert!(sender.send(&st, SendPolicy::Throttled, 100).is_some());
    assert!(sender.send(&st, SendPolicy::Throttled, 120).is_none());
    assert!(sender.send(&st, SendPolicy::Throttled, 149).is_none());
    assert!(sender.send(&st, SendPolicy::Throttled, 150).is_some());
    assert!(sender.maybe_send(&st, 199).is_none());
    assert!(sender.maybe_send(&st, 200).is_some());
}

#[test]
fn throttled_policy_needs_a_destination() {
    let st = PadState::new();
    let mut sender = Sender::new("   ".to_string());
    assert!(sender.send(&st, SendPolicy::Throttled, 0).is_none());
    assert!(sender.send(&st, SendPolicy::Throttled, 1000).is_none());
    sender.set_target(" 10.0.0.2 ".to_string());
    let d = sender.send(&st, SendPolicy::Throttled, 1000).unwrap();
    assert_eq!(d.host, " 10.0.0.2 ");
    assert_eq!(sender.target(), " 10.0.0.2 ");
}

#[test]
fn throttle_counts_from_the_last_frame_that_went_out() {
    let st = PadState::new();
    let mut sender = Sender::new("h".to_string());
    assert!(sender.send(&st, SendPolicy::Throttled, 0).is_some());
    // A suppressed offer does not move the mark.
    assert!(sender.send(&st, SendPolicy::Throttled, 40).is_none());
    assert!(sender.send(&st, SendPolicy::Throttled, 50).is_some());
    // A heartbeat does.
    assert!(sender.send(&st, SendPolicy::Unconditional, 90).is_some());
    assert!(sender.send(&st, SendPolicy::Throttled, 100).is_none());
    assert!(sender.send(&st, SendPolicy::Throttled, 140).is_some());
}

#[test]
fn throttle_holds_back_when_the_clock_steps_back() {
    let st = PadState::new();
    let mut sender = Sender::new("h".to_string());
    assert!(sender.send(&st, SendPolicy::Throttled, 500).is_some());
    assert!(sender.send(&st, SendPolicy::Throttled, 100).is_none());
}

#[test]
fn changing_the_destination_keeps_the_throttle() {
    let st = PadState::new();
    let mut sender = Sender::new("a".to_string());
    assert!(sender.send(&st, SendPolicy::Throttled, 10).is_some());
    sender.set_target("b".to_string());
    assert!(sender.send(&st, SendPolicy::Throttled, 20).is_none());
    assert_eq!(sender.send(&st, SendPolicy::Throttled, 60).unwrap().host, "b");
}

#[test]
fn datagram_carries_host_port_and_frame() {
    let mut st = PadState::new();
    st.update_button(Button::South, true);
    let mut sender = Sender::new("192.168.1.5".to_string());
    let d = sender.send(&st, SendPolicy::Throttled, 0).unwrap();
    assert_eq!(d.host, "192.168.1.5");
    assert_eq!(d.port, 4950);
    assert_eq!(d.payload, encode(&st));
    assert_eq!(d.payload[0], 0xFD);
}

#[test]
fn wire_values_follow_the_stick() {
    // From one end of the travel to the other the fields never step back.
    let mut last_circle = 0;
    let mut last_c_stick = 0;
    for step in -1100..=1100 {
        let v = step as f32 / 1000.0;
        let frame = encode(&state_with(v, 0.5, v, 0.0));
        let circle = word(&frame, 2) & 0xFFF;
        let c_stick = (word(&frame, 3) >> 16) & 0xFF;
        assert!(circle >= last_circle && c_stick >= last_c_stick, "{v}");
        last_circle = circle;
        last_c_stick = c_stick;
    }
    // 1.1 * 1488 + 2048 and 1.1 * 89.8 + 128, the fraction dropped.
    assert_eq!(last_circle, 3684);
    assert_eq!(last_c_stick, 226);
}
