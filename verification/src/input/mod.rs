//! Controllers and touch screen.
pub mod gamepad;
pub mod joycon;
pub mod panel;
pub mod rail;
pub mod touch;
pub mod worker;
