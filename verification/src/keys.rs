//! The keys that the game reads.
//!
//! A key is known by its code: the number that
//! `winit::event::VirtualKeyCode` gives it when cast to `u32`.

use vstd::prelude::*;

verus! {

pub const C: u32 = 12;

pub const X: u32 = 33;

pub const Z: u32 = 35;

pub const ESCAPE: u32 = 36;

pub const F3: u32 = 39;

pub const F11: u32 = 47;

pub const LEFT: u32 = 70;

pub const UP: u32 = 71;

pub const RIGHT: u32 = 72;

pub const DOWN: u32 = 73;

pub const RETURN: u32 = 75;

pub const NUMPAD_ENTER: u32 = 94;

pub const LSHIFT: u32 = 118;

} // verus!
