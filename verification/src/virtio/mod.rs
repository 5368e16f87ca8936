//! The VirtIO driver: queues, PCI capabilities, transport and GPU protocol.

pub mod bytes;
pub mod capabilities;
pub mod demo;
pub mod gpu;
pub mod protocol;
pub mod queue;
pub mod transport;
