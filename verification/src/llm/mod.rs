//! Connecting LLM inference runtimes to the broker: topic taxonomy,
//! payload headers and client-side framing.

pub mod adapter;
