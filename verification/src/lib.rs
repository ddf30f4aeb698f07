//! Auto-batching proxy for embedding inference: the verified core.
pub mod active_vector;
pub mod batcher;
pub mod config;
pub mod reply;
pub mod tray;
pub mod types;
