//! A name registry over a key-value store: names are reserved under an allowed
//! top-level namespace, carry a value that their owner may change, and keep
//! every earlier version reachable through a chain of content hashes.

pub mod codec;
pub mod config;
pub mod contract;
pub mod digest;
pub mod error;
pub mod execute;
pub mod laws;
pub mod message;
pub mod registry;
pub mod store;
