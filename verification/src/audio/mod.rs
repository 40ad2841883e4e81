//! The speakers: codec, link and the ring of periods.
pub mod codec;
pub mod link;
pub mod platform;
pub mod playback;
pub mod ring;
