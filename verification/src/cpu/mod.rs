//! Frequency and voltage of the processor cluster.
pub mod clock;
pub mod policy;
pub mod voltage;
