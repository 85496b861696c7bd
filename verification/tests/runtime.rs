use std::time::Duration;
use switchboard::runtime::config::{
    default_max_buffer_size, default_metrics_enabled, default_shutdown_timeout_ms,
    default_tracing_enabled, RuntimeConfig,
};
use switchboard::runtime::lifecycle::{LifecycleError, RuntimeState};

#[test]
fn test_default_config() {
    let config = RuntimeConfig::default();
    assert_eq!(config.shutdown_timeout_ms, 5000);
    assert!(config.tracing_enabled);
    assert_eq!(config.max_buffer_size, 1024);
}

#[test]
fn default_helpers() {
    assert_eq!(default_shutdown_timeout_ms(), 5000);
    assert!(default_tracing_enabled());
    assert_eq!(default_max_buffer_size(), 1024);
    assert!(!default_metrics_enabled());
    let config = RuntimeConfig::default();
    assert!(config.watch_path.is_none());
    assert!(!config.metrics_enabled);
}

#[test]
fn shutdown_timeout_is_in_milliseconds() {
    let mut config = RuntimeConfig::default();
    assert_eq!(config.shutdown_timeout(), Duration::from_millis(5000));
    config.shutdown_timeout_ms = 1500;
    assert_eq!(config.shutdown_timeout(), Duration::from_millis(1500));
}

#[test]
fn lifecycle_start_then_shutdown() {
    let s = RuntimeState::Initialized;
    let s = s.begin_start().unwrap();
    assert_eq!(s, RuntimeState::Starting);
    let s = s.finish_start();
    assert_eq!(s, RuntimeState::Running);
    let s = s.begin_shutdown().unwrap();
    assert_eq!(s, RuntimeState::Stopping);
    assert_eq!(s.finish_shutdown(), RuntimeState::Stopped);
}

#[test]
fn lifecycle_start_only_once() {
    assert_eq!(
        RuntimeState::Running.begin_start(),
        Err(LifecycleError::NotInitialized)
    );
    assert_eq!(
        RuntimeState::Stopped.begin_start(),
        Err(LifecycleError::NotInitialized)
    );
    assert_eq!(
        LifecycleError::NotInitialized.message(),
        "runtime is not in Initialized state"
    );
}

#[test]
fn shutdown_of_idle_runtime_does_nothing() {
    assert_eq!(RuntimeState::Initialized.begin_shutdown(), None);
    assert_eq!(RuntimeState::Stopped.begin_shutdown(), None);
}
