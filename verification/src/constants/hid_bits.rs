//! Bit positions of the buttons in the twelve-bit, active-low button word.

use vstd::prelude::*;

verus! {

pub const A: u32 = 0;

pub const B: u32 = 1;

pub const SELECT: u32 = 2;

pub const START: u32 = 3;

pub const DRIGHT: u32 = 4;

pub const DLEFT: u32 = 5;

pub const DUP: u32 = 6;

pub const DDOWN: u32 = 7;

pub const R: u32 = 8;

pub const L: u32 = 9;

pub const X: u32 = 10;

pub const Y: u32 = 11;

} // verus!
