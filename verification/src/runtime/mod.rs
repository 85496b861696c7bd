//! Runtime configuration and the lifecycle of a running graph.

pub mod config;
pub mod lifecycle;
