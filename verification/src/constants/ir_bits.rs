//! Bit positions of the secondary shoulder buttons in the active-high
//! auxiliary button field.

use vstd::prelude::*;

verus! {

pub const ZR: u8 = 1;

pub const ZL: u8 = 2;

} // verus!
