//! Dataflow graphs on top of the broker: nodes are units of computation and
//! edges are topics.

pub mod executor;
pub mod graph;
pub mod ids;
pub mod yaml_loader;
