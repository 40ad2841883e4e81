//! GM20B graphics: address space, submission checking and command encoding.
pub mod address_space;
pub mod allocation;
pub mod block_linear;
pub mod clock;
pub mod completion;
pub mod context;
pub mod demonstration;
pub mod device;
pub mod effects;
pub mod execution;
pub mod fifo;
pub mod firmware;
pub mod gmmu;
pub mod gr;
pub mod graphics;
pub mod hardware;
pub mod images;
pub mod import;
pub mod memory;
pub mod objects;
pub mod probe;
pub mod push;
pub mod rail;
pub mod snapshot;
pub mod submit;
pub mod utilization;
pub mod wiring;
pub mod work;
