//! The worker's iterations: events, sends, stopping, device churn.

use input_redirection::config::AppConfig;
use input_redirection::network::{encode, SendPolicy};
use input_redirection::pad_state::{Axis, Button, PadState};
use input_redirection::poller_worker::{first_other, Event, EventType, PollerConfig, PollerWorker};

fn config() -> PollerConfig {
    PollerConfig {
        target_ip: "192.168.1.5".to_string(),
        deadzone_lstick: 0.10f32.to_bits(),
        deadzone_rstick: 0.25f32.to_bits(),
        invert_lx: false,
        invert_ly: true,
        invert_rx: false,
        invert_ry: true,
    }
}

fn worker(policy: SendPolicy) -> PollerWorker {
    PollerWorker::new(Some(7), config(), policy)
}

fn axis(id: usize, axis: Axis, value: f32) -> Option<Event> {
    Some(Event { id, event: EventType::AxisChanged(axis, value.to_bits()) })
}

fn press(id: usize, button: Button) -> Option<Event> {
    Some(Event { id, event: EventType::ButtonPressed(button) })
}

fn release(id: usize, button: Button) -> Option<Event> {
    Some(Event { id, event: EventType::ButtonReleased(button) })
}

#[test]
fn default_settings() {
    let cfg = AppConfig::default();
    assert_eq!(cfg.target_ip, "0.0.0.0");
    assert!(!cfg.invert_lx && !cfg.invert_ly && !cfg.invert_rx && !cfg.invert_ry);
    assert_eq!(cfg.deadzone_lstick, 0.10f32.to_bits());
    assert_eq!(cfg.deadzone_rstick, 0.10f32.to_bits());
}

#[test]
fn settings_carry_over_to_the_worker() {
    let mut cfg = AppConfig::default();
    cfg.target_ip = "10.1.2.3".to_string();
    cfg.invert_ry = true;
    cfg.deadzone_rstick = 0.3f32.to_bits();
    let p = cfg.poller_config();
    assert_eq!(p.target_ip, "10.1.2.3");
    assert_eq!(p.deadzone_lstick, 0.10f32.to_bits());
    assert_eq!(p.deadzone_rstick, 0.3f32.to_bits());
    assert!(p.invert_ry && !p.invert_rx && !p.invert_lx && !p.invert_ly);
}

#[test]
fn new_worker_runs_with_a_fresh_state() {
    let w = worker(SendPolicy::Unconditional);
    assert!(w.is_running());
    assert_eq!(w.active_id(), Some(7));
    assert_eq!(*w.state(), PadState::new());
}

#[test]
fn calibration_is_per_axis() {
    let w = worker(SendPolicy::Unconditional);
    assert!(!w.axis_inverted(Axis::LeftStickX));
    assert!(w.axis_inverted(Axis::LeftStickY));
    assert!(!w.axis_inverted(Axis::RightStickX));
    assert!(w.axis_inverted(Axis::RightStickY));
    assert!(!w.axis_inverted(Axis::DPadX));
    assert_eq!(w.deadzone(Axis::LeftStickX), 0.10f32.to_bits());
    assert_eq!(w.deadzone(Axis::LeftStickY), 0.10f32.to_bits());
    assert_eq!(w.deadzone(Axis::RightStickX), 0.25f32.to_bits());
    assert_eq!(w.deadzone(Axis::RightStickY), 0.25f32.to_bits());
    assert_eq!(w.deadzone(Axis::LeftZ), 0);
}

#[test]
fn quiet_iteration_sends_one_heartbeat() {
    let mut w = worker(SendPolicy::Unconditional);
    let out = w.step(None, &vec![7], 0, true);
    assert_eq!(out.len(), 1);
    assert_eq!(out[0].host, "192.168.1.5");
    assert_eq!(out[0].port, 4950);
    assert_eq!(out[0].payload, encode(&PadState::new()));
    assert!(w.is_running());
}

#[test]
fn heartbeat_ignores_the_throttle() {
    let mut w = worker(SendPolicy::Throttled);
    for now in 0..20 {
        assert_eq!(w.step(None, &vec![7], now, true).len(), 1);
    }
}

#[test]
fn button_event_sends_at_once_and_then_the_heartbeat() {
    let mut w = worker(SendPolicy::Unconditional);
    let out = w.step(press(7, Button::South), &vec![7], 3, true);
    assert_eq!(out.len(), 2);
    assert_eq!(w.state().buttons(), 0xFFD);
    assert_eq!(out[0].payload, encode(w.state()));
    assert_eq!(out[1].payload, encode(w.state()));
    let out = w.step(release(7, Button::South), &vec![7], 4, true);
    assert_eq!(out.len(), 2);
    assert_eq!(w.state().buttons(), 0xFFF);
}

#[test]
fn throttled_worker_sends_at_once_only_when_due() {
    let mut w = worker(SendPolicy::Throttled);
    // Nothing was sent yet: the change goes out at once.
    assert_eq!(w.step(press(7, Button::East), &vec![7], 0, true).len(), 2);
    // The heartbeat of a moment ago holds the next change back.
    assert_eq!(w.step(release(7, Button::East), &vec![7], 16, true).len(), 1);
    assert_eq!(w.state().buttons(), 0xFFF);
    assert_eq!(w.step(press(7, Button::East), &vec![7], 66, true).len(), 2);
}

#[test]
fn axis_event_is_calibrated_and_sends_if_it_changed() {
    let mut w = worker(SendPolicy::Unconditional);
    let out = w.step(axis(7, Axis::LeftStickY, 0.5), &vec![7], 0, true);
    assert_eq!(out.len(), 2);
    assert_eq!(w.state().ly(), (-0.5f32).to_bits());
    // Inside the right stick's dead zone: the stored nudge stays, nothing changed.
    let out = w.step(axis(7, Axis::RightStickX, 0.2), &vec![7], 1, true);
    assert_eq!(out.len(), 1);
    assert_eq!(w.state().rx(), 0.008f32.to_bits());
    // Inverted and inside the dead zone: the nudge changes sign.
    let out = w.step(axis(7, Axis::RightStickY, 0.2), &vec![7], 2, true);
    assert_eq!(out.len(), 2);
    assert_eq!(w.state().ry(), (-0.008f32).to_bits());
    // An axis that is no stick.
    let out = w.step(axis(7, Axis::DPadX, 1.0), &vec![7], 3, true);
    assert_eq!(out.len(), 1);
}

#[test]
fn input_of_another_device_is_ignored() {
    let mut w = worker(SendPolicy::Unconditional);
    let out = w.step(press(8, Button::South), &vec![7, 8], 0, true);
    assert_eq!(out.len(), 1);
    assert_eq!(*w.state(), PadState::new());
    let out = w.step(axis(8, Axis::LeftStickX, 1.0), &vec![7, 8], 1, true);
    assert_eq!(out.len(), 1);
    assert_eq!(*w.state(), PadState::new());
    assert_eq!(w.active_id(), Some(7));
}

#[test]
fn other_events_change_nothing() {
    let mut w = worker(SendPolicy::Unconditional);
    let out = w.step(Some(Event { id: 7, event: EventType::Other }), &vec![7], 0, true);
    assert_eq!(out.len(), 1);
    assert_eq!(*w.state(), PadState::new());
    let out = w.step(Some(Event { id: 7, event: EventType::Connected }), &vec![7], 0, true);
    assert_eq!(out.len(), 1);
    assert_eq!(w.active_id(), Some(7));
}

#[test]
fn stop_signal_ends_the_worker_after_the_iteration() {
    let mut w = worker(SendPolicy::Unconditional);
    assert_eq!(w.step(None, &vec![7], 0, true).len(), 1);
    // The iteration that reads the signal still sends its heartbeat.
    assert_eq!(w.step(press(7, Button::South), &vec![7], 16, false).len(), 2);
    assert!(!w.is_running());
    let before = *w.state();
    // Nothing is sent after the stop, and nothing changes.
    assert_eq!(w.step(None, &vec![7], 32, true).len(), 0);
    assert_eq!(w.step(release(7, Button::South), &vec![7], 48, true).len(), 0);
    assert!(!w.is_running());
    assert_eq!(*w.state(), before);
}

#[test]
fn disconnect_falls_back_to_the_other_device() {
    let mut w = worker(SendPolicy::Unconditional);
    let gone = Some(Event { id: 7, event: EventType::Disconnected });
    let out = w.step(gone, &vec![9], 0, true);
    assert_eq!(out.len(), 1);
    assert_eq!(w.active_id(), Some(9));
    // The next iteration follows the adopted device.
    assert_eq!(w.step(press(9, Button::South), &vec![9], 16, true).len(), 2);
    assert_eq!(w.state().buttons(), 0xFFD);
    assert_eq!(w.step(press(7, Button::East), &vec![9], 32, true).len(), 1);
    assert_eq!(w.state().buttons(), 0xFFD);
}

#[test]
fn disconnect_never_falls_back_to_the_device_that_left() {
    let mut w = worker(SendPolicy::Unconditional);
    let gone = Some(Event { id: 7, event: EventType::Disconnected });
    w.step(gone, &vec![7, 4, 9], 0, true);
    assert_eq!(w.active_id(), Some(4));
    assert_eq!(first_other(&vec![7, 7], 7), None);
    assert_eq!(first_other(&vec![3, 7], 7), Some(3));
    assert_eq!(first_other(&vec![], 7), None);
}

#[test]
fn disconnect_of_the_last_device_leaves_none() {
    let mut w = worker(SendPolicy::Unconditional);
    let gone = Some(Event { id: 7, event: EventType::Disconnected });
    assert_eq!(w.step(gone, &vec![], 0, true).len(), 1);
    assert_eq!(w.active_id(), None);
    // Input is suppressed, the heartbeat goes on.
    assert_eq!(w.step(press(7, Button::South), &vec![], 16, true).len(), 1);
    assert_eq!(w.step(axis(7, Axis::LeftStickX, 1.0), &vec![], 32, true).len(), 1);
    assert_eq!(*w.state(), PadState::new());
    assert!(w.is_running());
}

#[test]
fn disconnect_of_another_device_changes_nothing() {
    let mut w = worker(SendPolicy::Unconditional);
    let gone = Some(Event { id: 8, event: EventType::Disconnected });
    w.step(gone, &vec![7], 0, true);
    assert_eq!(w.active_id(), Some(7));
}

#[test]
fn connect_is_adopted_when_no_device_is_followed() {
    let mut w = PollerWorker::new(None, config(), SendPolicy::Unconditional);
    assert_eq!(w.active_id(), None);
    let out = w.step(Some(Event { id: 3, event: EventType::Connected }), &vec![3], 0, true);
    assert_eq!(out.len(), 1);
    assert_eq!(w.active_id(), Some(3));
    assert_eq!(w.step(press(3, Button::North), &vec![3], 16, true).len(), 2);
    assert_eq!(w.state().buttons(), 0x7FF);
}

#[test]
fn tracking_adopts_and_lets_go() {
    let mut w = PollerWorker::new(None, config(), SendPolicy::Throttled);
    w.track_devices(&vec![]);
    assert_eq!(w.active_id(), None);
    w.track_devices(&vec![5, 6]);
    assert_eq!(w.active_id(), Some(5));
    w.track_devices(&vec![6, 5]);
    assert_eq!(w.active_id(), Some(5));
    w.track_devices(&vec![6]);
    assert_eq!(w.active_id(), None);
    w.track_devices(&vec![6]);
    assert_eq!(w.active_id(), Some(6));
}

#[test]
fn handle_event_reports_what_calls_for_a_send() {
    let mut w = worker(SendPolicy::Throttled);
    let devices = vec![7];
    assert!(w.handle_event(&press(7, Button::C).unwrap(), &devices));
    assert!(!w.handle_event(&press(8, Button::South).unwrap(), &devices));
    assert!(w.handle_event(&axis(7, Axis::LeftStickX, 0.7).unwrap(), &devices));
    assert!(!w.handle_event(&axis(7, Axis::LeftStickX, 0.7).unwrap(), &devices));
    assert!(!w.handle_event(&Event { id: 7, event: EventType::Other }, &devices));
}

#[test]
fn offer_goes_through_the_worker_s_sender() {
    let mut w = worker(SendPolicy::Throttled);
    w.update_button_state(Button::West, true);
    let d = w.offer(SendPolicy::Throttled, 10).unwrap();
    assert_eq!(d.payload, encode(w.state()));
    assert_eq!(d.payload[1], 0x0B);
    assert!(w.offer(SendPolicy::Throttled, 30).is_none());
    w.set_target("10.0.0.9".to_string());
    assert_eq!(w.offer(SendPolicy::Throttled, 60).unwrap().host, "10.0.0.9");
}
