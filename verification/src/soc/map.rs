//! Where the units of the chip are. Registers are addressed by where they are in
//! memory.
use vstd::prelude::*;

verus! {

/// Clocks and resets.
pub const CAR: usize = 0x6000_6000;

/// Digital pins.
pub const GPIO: usize = 0x6000_d000;

/// Functions of pins.
pub const PADS: usize = 0x7000_3000;

/// Power partitions, clamps and the supplies of pins.
pub const PMC: usize = 0x7000_e400;

/// The pulse widths of backlight and fan.
pub const PWM: usize = 0x7000_a000;

/// The memory controller.
pub const MC: usize = 0x7001_9000;

/// Drive strengths and the like.
pub const MISC: usize = 0x7000_0000;

/// The image compositor.
pub const VIC: usize = 0x5434_0000;

/// Counters of completed work.
pub const HOST1X_SYNC: usize = 0x5000_3000;

/// The audio crossbar and its memory engine.
pub const AHUB: usize = 0x702d_0000;

pub const ADMA: usize = 0x702e_2000;

/// The sensors of the die.
pub const SOCTHERM: usize = 0x700e_2000;

pub const FUSES: usize = 0x7000_f800;

} // verus!
