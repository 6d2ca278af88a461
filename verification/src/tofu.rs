//! Integration with the provider plugin protocol.

pub mod plugin;
