//! Switchboard: a pub/sub message broker whose wire protocol, topic registry,
//! wildcard trie, shared-memory ring and dataflow wiring are verified with Verus.

pub mod state;
pub mod protocol;
pub mod connection;
pub mod segments;
pub mod trie_router;
pub mod router;
pub mod transport;
pub mod flow;
pub mod runtime;
pub mod llm;
pub mod cli;
pub mod bench;
