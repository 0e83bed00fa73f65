//! The wire frame and the transmission policy.
//!
//! A frame is five 32-bit words in little-endian order: the button word, the
//! touch-screen sentinel, the circle pad, the c-stick with the auxiliary
//! buttons, and a zero.  The [`Sender`] here decides whether a frame goes out
//! and to whom; putting the datagram on a socket is the caller's part.

use crate::binary32::arith::{difference, minus, plus, product, sum, times, to_i32, truncation};
use crate::binary32::at_least;
use crate::binary32::order::{lemma_product_monotone, lemma_sum_monotone,
    lemma_truncation_monotone};
use crate::constants::{CPAD_BOUND, CPAD_CENTER_OFFSET, CPP_CENTER_OFFSET, CPP_VALID,
    ROT_CPP_BOUND, TARGET_PORT, THROTTLE_INTERVAL_MS, TOUCH_NONE};
use crate::pad_state::{PadState, PadView};
use byteorder::{LittleEndian, WriteBytesExt};
use vstd::prelude::*;

pub mod at_rest;

verus! {

/// `x` held to the range `[lo, hi]`.
pub open spec fn saturate(x: int, lo: int, hi: int) -> int {
    if x < lo {
        lo
    } else if x > hi {
        hi
    } else {
        x
    }
}

/// Saturates `x` to the twelve-bit range `[0, 0xFFF]`.
pub fn clamp_u12(x: i32) -> (r: u32)
    ensures
        r == saturate(x as int, 0, 0xFFF),
{
    if x < 0 {
        0
    } else if x > 0xFFF {
        0xFFF
    } else {
        x as u32
    }
}

/// Saturates `x` to the eight-bit range `[0, 0xFF]`.
pub fn clamp_u8(x: i32) -> (r: u32)
    ensures
        r == saturate(x as int, 0, 0xFF),
{
    if x < 0 {
        0
    } else if x > 0xFF {
        0xFF
    } else {
        x as u32
    }
}

/// The four bytes of `word`, least significant first.
pub open spec fn le_bytes(word: u32) -> Seq<u8> {
    seq![
        (word % 0x100) as u8,
        (word / 0x100 % 0x100) as u8,
        (word / 0x1_0000 % 0x100) as u8,
        (word / 0x100_0000) as u8,
    ]
}

/// The wire value of one circle-pad axis: the stick value times 1488 plus
/// 2048, each step rounded to binary32, the fraction dropped, held to twelve
/// bits.
pub open spec fn circle_pad_axis(v: u32) -> u32 {
    saturate(truncation(sum(product(v, CPAD_BOUND), CPAD_CENTER_OFFSET)), 0, 0xFFF) as u32
}

/// The circle-pad word: the vertical axis above the horizontal one.
pub open spec fn circle_pad_word(lx: u32, ly: u32) -> u32 {
    (circle_pad_axis(ly) << 12) | circle_pad_axis(lx)
}

/// The wire value of one rotated c-stick axis: `v` times the rotated span
/// plus 128, each step rounded to binary32, the fraction dropped, held to
/// eight bits.
pub open spec fn c_stick_axis(v: u32) -> u32 {
    saturate(truncation(sum(product(v, ROT_CPP_BOUND), CPP_CENTER_OFFSET)), 0, 0xFF) as u32
}

/// The c-stick word.  The receiver's stick stands at 45 degrees to the
/// sender's axes: its horizontal field carries `rx + ry`, its vertical field
/// `ry - rx`.  Below them stand the auxiliary buttons and the mark of a valid
/// sample.
pub open spec fn c_stick_word(rx: u32, ry: u32, ir_buttons: u8) -> u32 {
    (c_stick_axis(difference(ry, rx)) << 24) | (c_stick_axis(sum(rx, ry)) << 16) | ((
    ir_buttons as u32) << 8) | CPP_VALID
}

/// The twenty bytes that carry the state `v`.
pub open spec fn wire_frame(v: PadView) -> Seq<u8> {
    le_bytes(v.buttons) + le_bytes(TOUCH_NONE) + le_bytes(circle_pad_word(v.lx, v.ly)) + le_bytes(
        c_stick_word(v.rx, v.ry, v.ir_buttons),
    ) + le_bytes(0)
}

/// The bytes of `le_bytes` are the base-256 digits of the word, lowest first.
pub proof fn lemma_le_bytes_value(word: u32)
    ensures
        le_bytes(word).len() == 4,
        word == le_bytes(word)[0] + 0x100 * le_bytes(word)[1] + 0x1_0000 * le_bytes(word)[2]
            + 0x100_0000 * le_bytes(word)[3],
{
}

/// A frame has twenty bytes, whatever the state.  Each stick field keeps to
/// its width, and the fields of a word lie side by side: the word is the sum
/// of its fields, each at its place.
pub proof fn lemma_frame_shape(v: PadView)
    ensures
        wire_frame(v).len() == 20,
        circle_pad_axis(v.lx) <= 0xFFF,
        circle_pad_axis(v.ly) <= 0xFFF,
        circle_pad_word(v.lx, v.ly) == circle_pad_axis(v.ly) * 0x1000 + circle_pad_axis(v.lx),
        c_stick_axis(sum(v.rx, v.ry)) <= 0xFF,
        c_stick_axis(difference(v.ry, v.rx)) <= 0xFF,
        c_stick_word(v.rx, v.ry, v.ir_buttons) == c_stick_axis(difference(v.ry, v.rx))
            * 0x100_0000 + c_stick_axis(sum(v.rx, v.ry)) * 0x1_0000 + v.ir_buttons * 0x100
            + CPP_VALID,
{
    let x = circle_pad_axis(v.lx);
    let y = circle_pad_axis(v.ly);
    assert((y << 12) | x == y * 0x1000 + x) by (bit_vector)
        requires
            x <= 0xFFF,
            y <= 0xFFF,
    ;
    let cx = c_stick_axis(sum(v.rx, v.ry));
    let cy = c_stick_axis(difference(v.ry, v.rx));
    let ir = v.ir_buttons as u32;
    assert((cy << 24) | (cx << 16) | (ir << 8) | 0x81 == cy * 0x100_0000 + cx * 0x1_0000 + ir
        * 0x100 + 0x81) by (bit_vector)
        requires
            cx <= 0xFF,
            cy <= 0xFF,
            ir <= 0xFF,
    ;
}

/// The frame is its five words one after the other.
pub proof fn lemma_frame_words(v: PadView, i: int)
    requires
        0 <= i < 4,
    ensures
        wire_frame(v)[i] == le_bytes(v.buttons)[i],
        wire_frame(v)[4 + i] == le_bytes(TOUCH_NONE)[i],
        wire_frame(v)[8 + i] == le_bytes(circle_pad_word(v.lx, v.ly))[i],
        wire_frame(v)[12 + i] == le_bytes(c_stick_word(v.rx, v.ry, v.ir_buttons))[i],
        wire_frame(v)[16 + i] == le_bytes(0)[i],
{
    let a = le_bytes(v.buttons);
    let b = le_bytes(TOUCH_NONE);
    let c = le_bytes(circle_pad_word(v.lx, v.ly));
    let d = le_bytes(c_stick_word(v.rx, v.ry, v.ir_buttons));
    let e = le_bytes(0);
    assert((a + b).len() == 8 && (a + b + c).len() == 12 && (a + b + c + d).len() == 16);
    assert((a + b + c + d + e)[i] == (a + b + c + d)[i]);
    assert((a + b + c + d)[i] == (a + b + c)[i]);
    assert((a + b + c)[i] == (a + b)[i]);
    assert((a + b + c + d + e)[4 + i] == (a + b + c + d)[4 + i]);
    assert((a + b + c + d)[4 + i] == (a + b + c)[4 + i]);
    assert((a + b + c)[4 + i] == (a + b)[4 + i]);
    assert((a + b + c + d + e)[8 + i] == (a + b + c + d)[8 + i]);
    assert((a + b + c + d)[8 + i] == (a + b + c)[8 + i]);
    assert((a + b + c + d + e)[12 + i] == (a + b + c + d)[12 + i]);
}

proof fn lemma_packed_twelve(x: u32, y: u32, word: u32)
    by (bit_vector)
    requires
        x <= 0xFFF,
        y <= 0xFFF,
        word == (y << 12) | x,
    ensures
        word % 0x100 == x % 0x100,
        word / 0x100 % 0x100 == x / 0x100 + (y % 0x10) * 0x10,
        word / 0x1_0000 % 0x100 == y / 0x10,
        word / 0x100_0000 == 0,
{
}

proof fn lemma_packed_bytes(b0: u32, b1: u32, b2: u32, b3: u32, word: u32)
    by (bit_vector)
    requires
        b0 <= 0xFF,
        b1 <= 0xFF,
        b2 <= 0xFF,
        b3 <= 0xFF,
        word == (b3 << 24) | (b2 << 16) | (b1 << 8) | b0,
    ensures
        word % 0x100 == b0,
        word / 0x100 % 0x100 == b1,
        word / 0x1_0000 % 0x100 == b2,
        word / 0x100_0000 == b3,
{
}

/// The bytes of the circle-pad word: the two twelve-bit values share the
/// middle byte.
pub proof fn lemma_circle_pad_bytes(lx: u32, ly: u32)
    ensures
        ({
            let w = le_bytes(circle_pad_word(lx, ly));
            let x = circle_pad_axis(lx);
            let y = circle_pad_axis(ly);
            w[0] == x % 0x100 && w[1] == x / 0x100 + (y % 0x10) * 0x10 && w[2] == y / 0x10 && w[3]
                == 0
        }),
{
    lemma_packed_twelve(circle_pad_axis(lx), circle_pad_axis(ly), circle_pad_word(lx, ly));
}

/// The bytes of the c-stick word: the mark of a valid sample, the auxiliary
/// buttons, the horizontal field, the vertical field.
pub proof fn lemma_c_stick_bytes(rx: u32, ry: u32, ir_buttons: u8)
    ensures
        ({
            let w = le_bytes(c_stick_word(rx, ry, ir_buttons));
            w[0] == CPP_VALID && w[1] == ir_buttons && w[2] == c_stick_axis(sum(rx, ry)) && w[3]
                == c_stick_axis(difference(ry, rx))
        }),
{
    lemma_packed_bytes(
        CPP_VALID,
        ir_buttons as u32,
        c_stick_axis(sum(rx, ry)),
        c_stick_axis(difference(ry, rx)),
        c_stick_word(rx, ry, ir_buttons),
    );
}

/// A stick pushed further never moves its wire value back.
pub proof fn lemma_axis_fields_monotone(a: u32, b: u32)
    requires
        at_least(b, a),
    ensures
        circle_pad_axis(a) <= circle_pad_axis(b),
        c_stick_axis(a) <= c_stick_axis(b),
{
    lemma_product_monotone(a, b, CPAD_BOUND);
    lemma_sum_monotone(product(a, CPAD_BOUND), product(b, CPAD_BOUND), CPAD_CENTER_OFFSET);
    lemma_truncation_monotone(
        sum(product(a, CPAD_BOUND), CPAD_CENTER_OFFSET),
        sum(product(b, CPAD_BOUND), CPAD_CENTER_OFFSET),
    );
    lemma_product_monotone(a, b, ROT_CPP_BOUND);
    lemma_sum_monotone(product(a, ROT_CPP_BOUND), product(b, ROT_CPP_BOUND), CPP_CENTER_OFFSET);
    lemma_truncation_monotone(
        sum(product(a, ROT_CPP_BOUND), CPP_CENTER_OFFSET),
        sum(product(b, ROT_CPP_BOUND), CPP_CENTER_OFFSET),
    );
}

/// Appends `word` to `buf`, least significant byte first, through
/// byteorder's `WriteBytesExt::write_u32::<LittleEndian>`.  Writing to a
/// `Vec<u8>` cannot fail, so the four bytes are always appended.
#[verifier::external_body]
fn put_u32_le(buf: &mut Vec<u8>, word: u32)
    ensures
        final(buf)@ == old(buf)@ + le_bytes(word),
{
    let _ = buf.write_u32::<LittleEndian>(word);
}

/// Encodes the state into its wire frame.
pub fn encode(st: &PadState) -> (frame: [u8; 20])
    ensures
        frame@ == wire_frame(st@),
{
    let mut buf: Vec<u8> = Vec::new();
    put_u32_le(&mut buf, st.buttons());
    put_u32_le(&mut buf, TOUCH_NONE);

    let x_cpad = to_i32(plus(times(st.lx(), CPAD_BOUND), CPAD_CENTER_OFFSET));
    let y_cpad = to_i32(plus(times(st.ly(), CPAD_BOUND), CPAD_CENTER_OFFSET));
    let circle_payload = (clamp_u12(y_cpad) << 12) | clamp_u12(x_cpad);
    put_u32_le(&mut buf, circle_payload);

    let calculated_rx = plus(times(plus(st.rx(), st.ry()), ROT_CPP_BOUND), CPP_CENTER_OFFSET);
    let calculated_ry = plus(times(minus(st.ry(), st.rx()), ROT_CPP_BOUND), CPP_CENTER_OFFSET);
    let c_stick_payload = (clamp_u8(to_i32(calculated_ry)) << 24) | (clamp_u8(
        to_i32(calculated_rx),
    ) << 16) | ((st.ir_buttons() as u32) << 8) | CPP_VALID;
    put_u32_le(&mut buf, c_stick_payload);

    put_u32_le(&mut buf, 0);

    let mut frame = [0u8; 20];
    let mut i: usize = 0;
    while i < 20
        invariant
            i <= 20,
            buf@ == wire_frame(st@),
            buf@.len() == 20,
            forall|j: int| 0 <= j < i ==> frame@[j] == buf@[j],
        decreases 20 - i,
    {
        frame[i] = buf[i];
        i = i + 1;
    }
    assert(frame@ =~= buf@);
    frame
}

/// The policy under which a frame is offered for transmission.
#[derive(Debug, Clone, Copy, PartialEq, Eq, Structural)]
pub enum SendPolicy {
    /// At most one frame in fifty milliseconds, and none without a
    /// destination.
    Throttled,
    /// Every frame, whatever the time and the destination.
    Unconditional,
}

/// One frame on its way: where to send it, and what.
#[derive(Debug, Clone, PartialEq, Eq)]
pub struct Datagram {
    pub host: String,
    pub port: u16,
    pub payload: [u8; 20],
}

/// What a [`Sender`] holds: the destination host, and the time in
/// milliseconds at which it last let a frame out.
pub struct SenderView {
    pub target: Seq<char>,
    pub last_sent: Option<u64>,
}

/// The destination of the frames and the memory of the throttle.
#[derive(Debug, Clone)]
pub struct Sender {
    target_ip: String,
    last_sent: Option<u64>,
}

impl View for Sender {
    type V = SenderView;

    closed spec fn view(&self) -> SenderView {
        SenderView { target: self.target_ip@, last_sent: self.last_sent }
    }
}

/// Whether `c` has the Unicode property White_Space.
pub open spec fn is_white_space(c: char) -> bool {
    let n = c as u32;
    ||| 0x09 <= n <= 0x0D
    ||| n == 0x20
    ||| n == 0x85
    ||| n == 0xA0
    ||| n == 0x1680
    ||| 0x2000 <= n <= 0x200A
    ||| n == 0x2028
    ||| n == 0x2029
    ||| n == 0x202F
    ||| n == 0x205F
    ||| n == 0x3000
}

/// Whether nothing is left of `s` once white space is trimmed from it.
pub open spec fn is_blank(s: Seq<char>) -> bool {
    forall|i: int| 0 <= i < s.len() ==> is_white_space(#[trigger] s[i])
}

/// Whether a frame offered at time `now` goes out.
pub open spec fn transmits(v: SenderView, policy: SendPolicy, now: u64) -> bool {
    match policy {
        SendPolicy::Unconditional => true,
        SendPolicy::Throttled => !is_blank(v.target) && match v.last_sent {
            None => true,
            Some(t) => now - t >= THROTTLE_INTERVAL_MS,
        },
    }
}

/// The sender after a frame was offered at time `now`: a frame that went out
/// leaves its time behind.
pub open spec fn after_offer(v: SenderView, policy: SendPolicy, now: u64) -> SenderView {
    if transmits(v, policy, now) {
        SenderView { last_sent: Some(now), ..v }
    } else {
        v
    }
}

/// The number of frames that go out when one is offered at each of `times`,
/// in order.
pub open spec fn frames_sent(v: SenderView, policy: SendPolicy, times: Seq<u64>) -> nat
    decreases times.len(),
{
    if times.len() == 0 {
        0
    } else {
        let rest = frames_sent(after_offer(v, policy, times[0]), policy, times.skip(1));
        if transmits(v, policy, times[0]) {
            1 + rest
        } else {
            rest
        }
    }
}

/// Under the unconditional policy every offer goes out, whatever the times.
pub proof fn lemma_unconditional_sends_all(v: SenderView, times: Seq<u64>)
    ensures
        frames_sent(v, SendPolicy::Unconditional, times) == times.len(),
    decreases times.len(),
{
    if times.len() > 0 {
        lemma_unconditional_sends_all(
            after_offer(v, SendPolicy::Unconditional, times[0]),
            times.skip(1),
        );
    }
}

/// Under the throttled policy, of two offers less than fifty milliseconds
/// apart only the first goes out, and an offer fifty milliseconds or more
/// after it goes out again.
pub proof fn lemma_throttle_spacing(v: SenderView, first: u64, second: u64, third: u64)
    requires
        transmits(v, SendPolicy::Throttled, first),
        first <= second < first + THROTTLE_INTERVAL_MS,
        third >= first + THROTTLE_INTERVAL_MS,
    ensures
        frames_sent(v, SendPolicy::Throttled, seq![first, second]) == 1,
        frames_sent(v, SendPolicy::Throttled, seq![first, second, third]) == 2,
{
    let p = SendPolicy::Throttled;
    let v1 = after_offer(v, p, first);
    let v2 = after_offer(v1, p, second);
    let v3 = after_offer(v2, p, third);
    assert(!transmits(v1, p, second));
    assert(transmits(v2, p, third));
    let two = seq![first, second];
    let three = seq![first, second, third];
    assert(two.skip(1) =~= seq![second]);
    assert(seq![second].skip(1) =~= Seq::<u64>::empty());
    assert(three.skip(1) =~= seq![second, third]);
    assert(seq![second, third].skip(1) =~= seq![third]);
    assert(seq![third].skip(1) =~= Seq::<u64>::empty());
    assert(frames_sent(v3, p, Seq::<u64>::empty()) == 0);
    assert(frames_sent(v2, p, seq![third]) == 1);
    assert(frames_sent(v1, p, seq![second, third]) == 1);
    assert(frames_sent(v2, p, Seq::<u64>::empty()) == 0);
    assert(frames_sent(v1, p, seq![second]) == 0);
}

/// Whether `c` is white space.
pub fn white_space(c: char) -> (r: bool)
    ensures
        r == is_white_space(c),
{
    let n = c as u32;
    (0x09 <= n && n <= 0x0D) || n == 0x20 || n == 0x85 || n == 0xA0 || n == 0x1680 || (0x2000 <= n
        && n <= 0x200A) || n == 0x2028 || n == 0x2029 || n == 0x202F || n == 0x205F || n
        == 0x3000
}

/// Whether `s` is empty once trimmed.
pub fn blank(s: &str) -> (r: bool)
    ensures
        r == is_blank(s@),
{
    let n = s.unicode_len();
    let mut i: usize = 0;
    while i < n
        invariant
            i <= n,
            n == s@.len(),
            forall|j: int| 0 <= j < i ==> is_white_space(#[trigger] s@[j]),
        decreases n - i,
    {
        if !white_space(s.get_char(i)) {
            return false;
        }
        i = i + 1;
    }
    true
}

impl Sender {
    /// A sender for the host `target_ip` that has not sent anything yet.
    pub fn new(target_ip: String) -> (s: Self)
        ensures
            s@ == (SenderView { target: target_ip@, last_sent: None }),
    {
        Self { target_ip, last_sent: None }
    }

    /// Changes the destination; the throttle keeps its memory.
    pub fn set_target(&mut self, host: String)
        ensures
            final(self)@ == (SenderView { target: host@, ..old(self)@ }),
    {
        self.target_ip = host;
    }

    /// The destination host.
    pub fn target(&self) -> (r: &str)
        ensures
            r@ == self@.target,
    {
        self.target_ip.as_str()
    }

    /// Offers the state for transmission at the time `now`, in milliseconds
    /// of a clock that does not run backwards.  Returns the datagram to
    /// transmit, if the policy lets one out, and remembers its time.
    pub fn send(&mut self, st: &PadState, policy: SendPolicy, now: u64) -> (out: Option<Datagram>)
        ensures
            out is Some <==> transmits(old(self)@, policy, now),
            out matches Some(d) ==> d.host@ == old(self)@.target && d.port == TARGET_PORT
                && d.payload@ == wire_frame(st@),
            final(self)@ == after_offer(old(self)@, policy, now),
    {
        let due = match policy {
            SendPolicy::Unconditional => true,
            SendPolicy::Throttled => !blank(self.target_ip.as_str()) && match self.last_sent {
                None => true,
                Some(t) => now >= t && now - t >= THROTTLE_INTERVAL_MS,
            },
        };
        if due {
            self.last_sent = Some(now);
            Some(Datagram { host: self.target_ip.clone(), port: TARGET_PORT, payload: encode(st) })
        } else {
            None
        }
    }

    /// Offers the state under the unconditional policy: the datagram always
    /// goes out.
    pub fn send_state(&mut self, st: &PadState, now: u64) -> (d: Datagram)
        ensures
            d.host@ == old(self)@.target,
            d.port == TARGET_PORT,
            d.payload@ == wire_frame(st@),
            final(self)@ == (SenderView { last_sent: Some(now), ..old(self)@ }),
    {
        self.last_sent = Some(now);
        Datagram { host: self.target_ip.clone(), port: TARGET_PORT, payload: encode(st) }
    }

    /// Offers the state under the throttled policy.
    pub fn maybe_send(&mut self, st: &PadState, now: u64) -> (out: Option<Datagram>)
        ensures
            out is Some <==> transmits(old(self)@, SendPolicy::Throttled, now),
            out matches Some(d) ==> d.host@ == old(self)@.target && d.port == TARGET_PORT
                && d.payload@ == wire_frame(st@),
            final(self)@ == after_offer(old(self)@, SendPolicy::Throttled, now),
    {
        self.send(st, SendPolicy::Throttled, now)
    }
}

} // verus!
