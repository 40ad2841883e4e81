//! The panel and its scanout.
pub mod adoption;
pub mod block_linear;
pub mod composer;
pub mod presentation;
pub mod scanout;
