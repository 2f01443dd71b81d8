//! Finding a server for an operation.

pub mod acquisition;
pub mod connection_registry;
pub mod guarantees;
pub mod load_balancing;
pub mod routed_connection_manager;
pub mod types;
