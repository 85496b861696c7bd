//! Runtime configuration and its defaults.

use vstd::prelude::*;
use core::time::Duration;

verus! {

/// Settings of the runtime.
#[derive(Debug, Clone)]
pub struct RuntimeConfig {
    /// How long a graceful shutdown may take before nodes are stopped, in milliseconds.
    pub shutdown_timeout_ms: u64,
    /// Whether node events are traced.
    pub tracing_enabled: bool,
    /// Path watched for graph changes.
    pub watch_path: Option<String>,
    /// Largest number of messages buffered per input queue.
    pub max_buffer_size: usize,
    /// Whether metrics are collected.
    pub metrics_enabled: bool,
}

pub fn default_shutdown_timeout_ms() -> (r: u64)
    ensures
        r == 5000,
{
    5000
}

pub fn default_tracing_enabled() -> (r: bool)
    ensures
        r,
{
    true
}

pub fn default_max_buffer_size() -> (r: usize)
    ensures
        r == 1024,
{
    1024
}

pub fn default_metrics_enabled() -> (r: bool)
    ensures
        !r,
{
    false
}

impl Default for RuntimeConfig {
    fn default() -> (r: Self)
        ensures
            r.shutdown_timeout_ms == 5000,
            r.tracing_enabled,
            r.watch_path is None,
            r.max_buffer_size == 1024,
            !r.metrics_enabled,
    {
        RuntimeConfig {
            shutdown_timeout_ms: default_shutdown_timeout_ms(),
            tracing_enabled: default_tracing_enabled(),
            watch_path: None,
            max_buffer_size: default_max_buffer_size(),
            metrics_enabled: default_metrics_enabled(),
        }
    }
}

/// The duration `Duration::from_millis(ms)`.
pub uninterp spec fn duration_of_millis(ms: u64) -> Duration;

/// Calls `core::time::Duration::from_millis`. Trusted: the result depends on
/// `ms` alone, which is all that is claimed; what it holds is not stated.
#[verifier::external_body]
fn duration_from_millis(ms: u64) -> (r: Duration)
    ensures
        r == duration_of_millis(ms),
{
    Duration::from_millis(ms)
}

impl RuntimeConfig {
    /// The shutdown timeout as a `Duration`.
    pub fn shutdown_timeout(&self) -> (r: Duration)
        ensures
            r == duration_of_millis(self.shutdown_timeout_ms),
    {
        duration_from_millis(self.shutdown_timeout_ms)
    }
}

} // verus!
