//! The chip: pins, clocks, power, buses and sensors.
pub mod clocks;
pub mod gpio;
pub mod host1x;
pub mod instances;
pub mod map;
pub mod packet;
pub mod power;
pub mod sdmmc;
pub mod soctherm;
pub mod thermal;
pub mod transfer;
pub mod uart;
