//! Real-time clock of the power management chip.
pub mod calendar;
pub mod session;
pub mod supply;
