//! Verified core of the Tegra210 console drivers.
pub mod audio;
pub mod cpu;
pub mod devicetree;
pub mod display;
pub mod gpu;
pub mod i2c;
pub mod input;
pub mod mmc;
pub mod mmio;
pub mod power;
pub mod random;
pub mod rounding;
pub mod rtc;
pub mod soc;
pub mod words;
