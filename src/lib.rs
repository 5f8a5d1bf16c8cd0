//! Carbon (Graphite plain-text) metrics client: the wire encoder, the lossy
//! producer channel, the connection-pool engine and the single-connection
//! runner, each with its contract.

pub mod channel;
pub mod config;
pub mod metric;
pub mod pool;
pub mod proto;

pub use config::{from_ms, to_ms, Config};
