//! Routing and connection bookkeeping for a Bolt driver.

pub mod calls;
pub mod connection;
pub mod error;
pub mod framing;
pub mod message;
pub mod pool;
pub mod routing;
pub mod text;
