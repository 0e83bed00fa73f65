//! The settings of the program, as they are kept between runs.

use crate::binary32::{scale, significand};
use crate::poller_worker::PollerConfig;
use vstd::arithmetic::power2::*;
use vstd::prelude::*;
use vstd::string::*;

verus! {

/// The dead zone that a stick has until the user sets another: the binary32
/// nearest to 0.10.
pub const DEFAULT_DEADZONE: u32 = 0x3DCC_CCCD;

/// The default dead zone is the binary32 nearest to one tenth: a multiple of
/// 2^-27, with the tenth between the midpoints to its neighbours.
pub proof fn lemma_default_deadzone()
    ensures
        scale(DEFAULT_DEADZONE) + 27 == 149,
        (2 * significand(DEFAULT_DEADZONE) - 1) * 10 < 2 * pow2(27) < (2 * significand(
            DEFAULT_DEADZONE,
        ) + 1) * 10,
{
    lemma2_to64();
    assert(significand(DEFAULT_DEADZONE) == 0xCC_CCCD && scale(DEFAULT_DEADZONE) == 122);
}

/// The destination, the inversion of each stick axis and the dead zone of
/// each stick, the dead zones as binary32 patterns.
#[derive(Debug, Clone)]
pub struct AppConfig {
    pub target_ip: String,
    pub invert_lx: bool,
    pub invert_ly: bool,
    pub invert_rx: bool,
    pub invert_ry: bool,
    pub deadzone_lstick: u32,
    pub deadzone_rstick: u32,
}

impl Default for AppConfig {
    /// No destination yet, no axis inverted, both dead zones a tenth.
    fn default() -> (c: Self)
        ensures
            c.target_ip@ == "0.0.0.0"@,
            !c.invert_lx,
            !c.invert_ly,
            !c.invert_rx,
            !c.invert_ry,
            c.deadzone_lstick == DEFAULT_DEADZONE,
            c.deadzone_rstick == DEFAULT_DEADZONE,
    {
        Self {
            target_ip: String::from_str("0.0.0.0"),
            invert_lx: false,
            invert_ly: false,
            invert_rx: false,
            invert_ry: false,
            deadzone_lstick: DEFAULT_DEADZONE,
            deadzone_rstick: DEFAULT_DEADZONE,
        }
    }
}

impl AppConfig {
    /// The part of the settings that the polling worker works with.
    pub fn poller_config(&self) -> (p: PollerConfig)
        ensures
            p.target_ip@ == self.target_ip@,
            p.deadzone_lstick == self.deadzone_lstick,
            p.deadzone_rstick == self.deadzone_rstick,
            p.invert_lx == self.invert_lx,
            p.invert_ly == self.invert_ly,
            p.invert_rx == self.invert_rx,
            p.invert_ry == self.invert_ry,
    {
        PollerConfig {
            target_ip: self.target_ip.clone(),
            deadzone_lstick: self.deadzone_lstick,
            deadzone_rstick: self.deadzone_rstick,
            invert_lx: self.invert_lx,
            invert_ly: self.invert_ly,
            invert_rx: self.invert_rx,
            invert_ry: self.invert_ry,
        }
    }
}

} // verus!
