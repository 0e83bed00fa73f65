//! The decisions of the polling worker.
//!
//! The worker's loop waits for an input event, lets it change the pad state,
//! sends, and looks at the stop signal.  Waiting and sending are the
//! caller's; what happens in between is [`PollerWorker::step`]: from the
//! event that arrived, the devices still present, the time and the stop
//! signal to the next state and the datagrams to transmit.

use crate::network::{after_offer, transmits, wire_frame, Datagram, SendPolicy, Sender,
    SenderView};
use crate::binary32::{is_nan, value};
use crate::pad_state::{axis_applied, axis_changes, button_applied, fields_in_range, initial_pad,
    is_stick, lemma_buttons_stay_in_range, lemma_normalized_never_zero, sticks_off_zero, Axis,
    Button, PadState, PadView};
use crate::constants::TARGET_PORT;
use vstd::prelude::*;

verus! {

/// The calibration of the sticks and the destination of the frames.
#[derive(Clone, Debug)]
pub struct PollerConfig {
    pub target_ip: String,
    /// Dead zone of the left stick, a binary32 pattern.
    pub deadzone_lstick: u32,
    /// Dead zone of the right stick, a binary32 pattern.
    pub deadzone_rstick: u32,
    pub invert_lx: bool,
    pub invert_ly: bool,
    pub invert_rx: bool,
    pub invert_ry: bool,
}

/// What happened at a device.
#[derive(Debug, Clone, Copy, PartialEq, Eq, Structural)]
pub enum EventType {
    /// An axis moved to the raw sample given as a binary32 pattern.
    AxisChanged(Axis, u32),
    ButtonPressed(Button),
    ButtonReleased(Button),
    Connected,
    Disconnected,
    /// Anything else; it changes nothing.
    Other,
}

/// An event and the device it came from.
#[derive(Debug, Clone, Copy, PartialEq, Eq, Structural)]
pub struct Event {
    pub id: usize,
    pub event: EventType,
}

/// What a [`PollerWorker`] holds.
pub struct WorkerView {
    /// The device whose input is followed, if any.
    pub active: Option<usize>,
    pub cfg: PollerConfig,
    /// The policy of the send that follows a change.
    pub policy: SendPolicy,
    pub pad: PadView,
    pub sender: SenderView,
    /// False once the worker has stopped; it never becomes true again.
    pub running: bool,
}

/// The worker of one session: the followed device, the calibration, the pad
/// state and the sender.
pub struct PollerWorker {
    active_id: Option<usize>,
    cfg: PollerConfig,
    policy: SendPolicy,
    state: PadState,
    sender: Sender,
    running: bool,
}

impl View for PollerWorker {
    type V = WorkerView;

    closed spec fn view(&self) -> WorkerView {
        WorkerView {
            active: self.active_id,
            cfg: self.cfg,
            policy: self.policy,
            pad: self.state@,
            sender: self.sender@,
            running: self.running,
        }
    }
}

/// Whether the calibration inverts `axis`.
pub open spec fn inverted_for(cfg: PollerConfig, axis: Axis) -> bool {
    match axis {
        Axis::LeftStickX => cfg.invert_lx,
        Axis::LeftStickY => cfg.invert_ly,
        Axis::RightStickX => cfg.invert_rx,
        Axis::RightStickY => cfg.invert_ry,
        _ => false,
    }
}

/// The dead zone that the calibration gives `axis`; zero for an axis that is
/// no stick.
pub open spec fn deadzone_for(cfg: PollerConfig, axis: Axis) -> u32 {
    match axis {
        Axis::LeftStickX | Axis::LeftStickY => cfg.deadzone_lstick,
        Axis::RightStickX | Axis::RightStickY => cfg.deadzone_rstick,
        _ => 0,
    }
}

/// The first of `devices`, from index `from` on, that is not `gone`.
pub open spec fn first_other_from(devices: Seq<usize>, gone: usize, from: int) -> Option<usize>
    decreases devices.len() - from,
{
    if from < 0 || from >= devices.len() {
        None
    } else if devices[from] != gone {
        Some(devices[from])
    } else {
        first_other_from(devices, gone, from + 1)
    }
}

/// The followed device once it is brought in line with the devices present.
pub open spec fn reconciled(active: Option<usize>, devices: Seq<usize>) -> Option<usize> {
    match active {
        None => if devices.len() > 0 {
            Some(devices[0])
        } else {
            None
        },
        Some(id) => if devices.contains(id) {
            active
        } else {
            None
        },
    }
}

/// The pad state after an input event of the followed device.
pub open spec fn pad_after_event(cfg: PollerConfig, pad: PadView, kind: EventType) -> PadView {
    match kind {
        EventType::AxisChanged(axis, value) => axis_applied(
            pad,
            axis,
            value,
            inverted_for(cfg, axis),
            deadzone_for(cfg, axis),
        ),
        EventType::ButtonPressed(button) => button_applied(pad, button, true),
        EventType::ButtonReleased(button) => button_applied(pad, button, false),
        _ => pad,
    }
}

/// Whether an input event of the followed device calls for a send: every
/// button event does, an axis event if it changed the state.
pub open spec fn event_dirties(cfg: PollerConfig, pad: PadView, kind: EventType) -> bool {
    match kind {
        EventType::AxisChanged(axis, value) => axis_changes(
            pad,
            axis,
            value,
            inverted_for(cfg, axis),
            deadzone_for(cfg, axis),
        ),
        EventType::ButtonPressed(_) => true,
        EventType::ButtonReleased(_) => true,
        _ => false,
    }
}

/// The followed device after an event, `devices` being those still present.
/// A device that connects is adopted when none is followed; when the
/// followed device leaves, the first other device present takes its place.
pub open spec fn active_after_event(active: Option<usize>, ev: Event, devices: Seq<usize>)
    -> Option<usize> {
    match ev.event {
        EventType::Connected => if active is None {
            Some(ev.id)
        } else {
            active
        },
        EventType::Disconnected => if active == Some(ev.id) {
            first_other_from(devices, ev.id, 0)
        } else {
            active
        },
        _ => active,
    }
}

/// The worker after the event `ev`.  Input of any device but the followed
/// one is ignored.
pub open spec fn handled(v: WorkerView, ev: Event, devices: Seq<usize>) -> WorkerView {
    WorkerView {
        active: active_after_event(v.active, ev, devices),
        pad: if v.active == Some(ev.id) {
            pad_after_event(v.cfg, v.pad, ev.event)
        } else {
            v.pad
        },
        ..v
    }
}

/// Whether the event `ev` calls for a send.
pub open spec fn dirtied(v: WorkerView, ev: Event) -> bool {
    v.active == Some(ev.id) && event_dirties(v.cfg, v.pad, ev.event)
}

/// Whether the iteration sends at once, before its heartbeat: the event
/// called for a send and the worker's policy lets the frame out.
pub open spec fn sends_at_once(v: WorkerView, event: Option<Event>, now: u64) -> bool {
    event matches Some(ev) && dirtied(v, ev) && transmits(v.sender, v.policy, now)
}

/// The worker after one iteration.  A stopped worker stays as it is.  A
/// running one handles the event, if one arrived, offers the state at once
/// if the event called for it, sends its heartbeat, and stops if
/// `keep_running` is false.
pub open spec fn stepped(
    v: WorkerView,
    event: Option<Event>,
    devices: Seq<usize>,
    now: u64,
    keep_running: bool,
) -> WorkerView {
    if !v.running {
        v
    } else {
        let h = match event {
            Some(ev) => handled(v, ev, devices),
            None => v,
        };
        let offered = if event matches Some(ev) && dirtied(v, ev) {
            after_offer(v.sender, v.policy, now)
        } else {
            v.sender
        };
        WorkerView {
            sender: after_offer(offered, SendPolicy::Unconditional, now),
            running: keep_running,
            ..h
        }
    }
}

/// The number of datagrams that one iteration hands out: none once stopped,
/// else the heartbeat and, before it, the frame sent at once.
pub open spec fn frames_of_step(v: WorkerView, event: Option<Event>, now: u64) -> nat {
    if !v.running {
        0
    } else if sends_at_once(v, event, now) {
        2
    } else {
        1
    }
}

/// A stopped worker stays stopped and hands out nothing, and an iteration
/// that reads the stop signal leaves the worker stopped.
pub proof fn lemma_stop_is_final(
    v: WorkerView,
    event: Option<Event>,
    devices: Seq<usize>,
    now: u64,
    keep_running: bool,
)
    ensures
        !v.running ==> stepped(v, event, devices, now, keep_running) == v,
        !v.running ==> frames_of_step(v, event, now) == 0,
        !keep_running ==> !stepped(v, event, devices, now, keep_running).running,
        v.running ==> frames_of_step(v, event, now) >= 1,
{
}

/// When the followed device leaves, the worker follows the first other
/// device still present, and none if no other is.
pub proof fn lemma_fallback_on_disconnect(
    v: WorkerView,
    devices: Seq<usize>,
    now: u64,
    keep_running: bool,
)
    requires
        v.running,
        v.active is Some,
    ensures
        ({
            let gone = v.active->0;
            let ev = Event { id: gone, event: EventType::Disconnected };
            let after = stepped(v, Some(ev), devices, now, keep_running);
            &&& after.pad == v.pad
            &&& after.active is Some ==> devices.contains(after.active->0) && after.active->0
                != gone
            &&& after.active is None ==> forall|i: int|
                0 <= i < devices.len() ==> devices[i] == gone
            &&& devices.len() == 1 && devices[0] != gone ==> after.active == Some(devices[0])
            &&& devices.len() == 0 ==> after.active is None
        }),
{
    let gone = v.active->0;
    lemma_first_other(devices, gone, 0);
    if devices.len() == 1 && devices[0] != gone {
        assert(first_other_from(devices, gone, 0) == Some(devices[0]));
    }
}

/// What `first_other_from` finds is present and is not the device that left;
/// it finds nothing only where every device from `from` on is that device.
pub proof fn lemma_first_other(devices: Seq<usize>, gone: usize, from: int)
    requires
        0 <= from,
    ensures
        first_other_from(devices, gone, from) matches Some(d) ==> devices.contains(d) && d
            != gone,
        first_other_from(devices, gone, from) is None ==> forall|i: int|
            from <= i < devices.len() ==> devices[i] == gone,
    decreases devices.len() - from,
{
    if from < devices.len() && devices[from] == gone {
        lemma_first_other(devices, gone, from + 1);
    }
}

/// While no device is followed, input changes nothing and calls for no
/// send; the heartbeat goes out all the same.
pub proof fn lemma_no_device_no_input(
    v: WorkerView,
    ev: Event,
    devices: Seq<usize>,
    now: u64,
    keep_running: bool,
)
    requires
        v.running,
        v.active is None,
    ensures
        stepped(v, Some(ev), devices, now, keep_running).pad == v.pad,
        !dirtied(v, ev),
        frames_of_step(v, Some(ev), now) == 1,
{
}

/// Whether both dead zones of the calibration are numbers above zero.
pub open spec fn deadzones_above_zero(cfg: PollerConfig) -> bool {
    &&& !is_nan(cfg.deadzone_lstick) && value(cfg.deadzone_lstick) > 0
    &&& !is_nan(cfg.deadzone_rstick) && value(cfg.deadzone_rstick) > 0
}

/// What holds of the pad state through every iteration: the button fields
/// keep to their bits, and under dead zones above zero no stick value is
/// ever a zero, so that the wire never carries an exact centre.
pub proof fn lemma_step_keeps_pad_sound(
    v: WorkerView,
    event: Option<Event>,
    devices: Seq<usize>,
    now: u64,
    keep_running: bool,
)
    ensures
        fields_in_range(initial_pad()) && sticks_off_zero(initial_pad()),
        fields_in_range(v.pad) ==> fields_in_range(
            stepped(v, event, devices, now, keep_running).pad,
        ),
        deadzones_above_zero(v.cfg) && sticks_off_zero(v.pad) ==> sticks_off_zero(
            stepped(v, event, devices, now, keep_running).pad,
        ),
{
    if let Some(ev) = event {
        match ev.event {
            EventType::AxisChanged(axis, value) => {
                if deadzones_above_zero(v.cfg) && is_stick(axis) {
                    lemma_normalized_never_zero(
                        axis,
                        value,
                        inverted_for(v.cfg, axis),
                        deadzone_for(v.cfg, axis),
                    );
                }
            },
            EventType::ButtonPressed(button) => {
                lemma_buttons_stay_in_range(v.pad, button, true);
            },
            EventType::ButtonReleased(button) => {
                lemma_buttons_stay_in_range(v.pad, button, false);
            },
            _ => {},
        }
    }
    lemma_buttons_stay_in_range(v.pad, Button::Unknown, false);
}

/// The first of `devices` that is not `gone`.
pub fn first_other(devices: &Vec<usize>, gone: usize) -> (r: Option<usize>)
    ensures
        r == first_other_from(devices@, gone, 0),
{
    let mut i: usize = 0;
    while i < devices.len()
        invariant
            i <= devices.len(),
            first_other_from(devices@, gone, 0) == first_other_from(devices@, gone, i as int),
        decreases devices.len() - i,
    {
        if devices[i] != gone {
            return Some(devices[i]);
        }
        i = i + 1;
    }
    None
}

impl PollerWorker {
    /// A running worker that follows the device `active_id`, if one is
    /// given, with a fresh pad state and a sender for the configured host.  `policy` governs the
    /// send that follows a change; the heartbeat is always unconditional.
    pub fn new(active_id: Option<usize>, config: PollerConfig, policy: SendPolicy) -> (w: Self)
        ensures
            w@ == (WorkerView {
                active: active_id,
                cfg: config,
                policy: policy,
                pad: initial_pad(),
                sender: SenderView { target: config.target_ip@, last_sent: None },
                running: true,
            }),
    {
        let sender = Sender::new(config.target_ip.clone());
        let state = PadState::new();
        PollerWorker { active_id, cfg: config, policy, state, sender, running: true }
    }

    /// Whether the calibration inverts `axis`.
    pub fn axis_inverted(&self, axis: Axis) -> (r: bool)
        ensures
            r == inverted_for(self@.cfg, axis),
    {
        match axis {
            Axis::LeftStickX => self.cfg.invert_lx,
            Axis::LeftStickY => self.cfg.invert_ly,
            Axis::RightStickX => self.cfg.invert_rx,
            Axis::RightStickY => self.cfg.invert_ry,
            _ => false,
        }
    }

    /// The dead zone that the calibration gives `axis`.
    pub fn deadzone(&self, axis: Axis) -> (r: u32)
        ensures
            r == deadzone_for(self@.cfg, axis),
    {
        match axis {
            Axis::LeftStickX | Axis::LeftStickY => self.cfg.deadzone_lstick,
            Axis::RightStickX | Axis::RightStickY => self.cfg.deadzone_rstick,
            _ => 0,
        }
    }

    /// The device whose input is followed.
    pub fn active_id(&self) -> (r: Option<usize>)
        ensures
            r == self@.active,
    {
        self.active_id
    }

    /// The pad state.
    pub fn state(&self) -> (r: &PadState)
        ensures
            r@ == self@.pad,
    {
        &self.state
    }

    /// Whether the worker has not stopped yet.
    pub fn is_running(&self) -> (r: bool)
        ensures
            r == self@.running,
    {
        self.running
    }

    /// Changes the destination of the frames.
    pub fn set_target(&mut self, host: String)
        ensures
            final(self)@ == (WorkerView {
                sender: SenderView { target: host@, ..old(self)@.sender },
                ..old(self)@
            }),
    {
        self.sender.set_target(host);
    }

    /// Replaces the calibration and the destination.  The pad state, the
    /// followed device and the throttle's memory stay.
    pub fn reconfigure(&mut self, config: PollerConfig)
        ensures
            final(self)@ == (WorkerView {
                cfg: config,
                sender: SenderView { target: config.target_ip@, ..old(self)@.sender },
                ..old(self)@
            }),
    {
        self.sender.set_target(config.target_ip.clone());
        self.cfg = config;
    }

    /// Records that `button` went down (`pressed`) or up.
    pub fn update_button_state(&mut self, button: Button, pressed: bool)
        ensures
            final(self)@ == (WorkerView {
                pad: button_applied(old(self)@.pad, button, pressed),
                ..old(self)@
            }),
    {
        self.state.update_button(button, pressed);
    }

    /// Brings the followed device in line with the devices present: with
    /// none followed the first present is adopted, and a followed device that
    /// is no longer present is let go.
    pub fn track_devices(&mut self, devices: &Vec<usize>)
        ensures
            final(self)@ == (WorkerView {
                active: reconciled(old(self)@.active, devices@),
                ..old(self)@
            }),
    {
        match self.active_id {
            None => {
                if devices.len() > 0 {
                    self.active_id = Some(devices[0]);
                }
            },
            Some(id) => {
                let mut i: usize = 0;
                let mut present = false;
                while i < devices.len()
                    invariant
                        i <= devices.len(),
                        present == exists|j: int| 0 <= j < i && devices@[j] == id,
                    decreases devices.len() - i,
                {
                    if devices[i] == id {
                        present = true;
                    }
                    i = i + 1;
                }
                if !present {
                    self.active_id = None;
                }
            },
        }
    }

    /// Offers the pad state to the sender under `policy` at the time `now`.
    /// Returns the datagram to transmit, if the policy lets one out.
    pub fn offer(&mut self, policy: SendPolicy, now: u64) -> (out: Option<Datagram>)
        ensures
            out is Some <==> transmits(old(self)@.sender, policy, now),
            out matches Some(d) ==> d.host@ == old(self)@.sender.target && d.port == TARGET_PORT
                && d.payload@ == wire_frame(old(self)@.pad),
            final(self)@ == (WorkerView {
                sender: after_offer(old(self)@.sender, policy, now),
                ..old(self)@
            }),
    {
        self.sender.send(&self.state, policy, now)
    }

    /// Lets the event `ev` act on the worker, `devices` being the devices
    /// still present.  Returns whether the event calls for a send.
    pub fn handle_event(&mut self, ev: &Event, devices: &Vec<usize>) -> (dirty: bool)
        ensures
            final(self)@ == handled(old(self)@, *ev, devices@),
            dirty == dirtied(old(self)@, *ev),
    {
        let followed = match self.active_id {
            Some(id) => id == ev.id,
            None => false,
        };
        match ev.event {
            EventType::AxisChanged(axis, value) => {
                if followed {
                    let deadzone_val = self.deadzone(axis);
                    let inv = self.axis_inverted(axis);
                    self.state.apply_axis(axis, value, inv, deadzone_val)
                } else {
                    false
                }
            },
            EventType::ButtonPressed(button) => {
                if followed {
                    self.state.update_button(button, true);
                }
                followed
            },
            EventType::ButtonReleased(button) => {
                if followed {
                    self.state.update_button(button, false);
                }
                followed
            },
            EventType::Connected => {
                if self.active_id.is_none() {
                    self.active_id = Some(ev.id);
                }
                false
            },
            EventType::Disconnected => {
                if followed {
                    self.active_id = first_other(devices, ev.id);
                }
                false
            },
            EventType::Other => false,
        }
    }

    /// One iteration of the worker's loop, between the wait for an event and
    /// the transmission.  `event` is what the wait brought, `devices` the
    /// devices present, `now` the time in milliseconds, `keep_running` the
    /// stop signal as read at the end of the iteration.  Returns the
    /// datagrams to transmit, in order.
    pub fn step(
        &mut self,
        event: Option<Event>,
        devices: &Vec<usize>,
        now: u64,
        keep_running: bool,
    ) -> (out: Vec<Datagram>)
        ensures
            final(self)@ == stepped(old(self)@, event, devices@, now, keep_running),
            out@.len() == frames_of_step(old(self)@, event, now),
            forall|i: int|
                0 <= i < out@.len() ==> (#[trigger] out@[i]).host@ == old(self)@.sender.target
                    && out@[i].port == TARGET_PORT && out@[i].payload@ == wire_frame(
                    final(self)@.pad,
                ),
    {
        let mut out: Vec<Datagram> = Vec::new();
        if !self.running {
            return out;
        }
        let dirty = match event {
            Some(ev) => self.handle_event(&ev, devices),
            None => false,
        };
        if dirty {
            match self.sender.send(&self.state, self.policy, now) {
                Some(d) => {
                    out.push(d);
                },
                None => {},
            }
        }
        let heartbeat = self.sender.send_state(&self.state, now);
        out.push(heartbeat);
        self.running = keep_running;
        out
    }
}

} // verus!
