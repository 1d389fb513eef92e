//! Typed topic multiplexing over one shared byte bus, with the envelope
//! format, the bus decisions and the gossip relay rules stated and proved.

pub mod bridge;
pub mod bus;
pub mod cli;
pub mod codec;
pub mod identity;
pub mod model;
pub mod pubsub;
