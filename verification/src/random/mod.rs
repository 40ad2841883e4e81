//! Hardware entropy.
pub mod engine;
pub mod probe;
