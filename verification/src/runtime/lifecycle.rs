//! Lifecycle of a runtime: start once, then shut down.
//!
//! Each operation is split in the step that checks and claims the state and
//! the step that completes it, so that a caller holding the state under a
//! lock can release the lock while the slow part runs.

use vstd::prelude::*;

verus! {

/// State of a runtime.
#[derive(Debug, Clone, Copy, PartialEq, Eq, Structural)]
pub enum RuntimeState {
    Initialized,
    Starting,
    Running,
    Stopping,
    Stopped,
    Error,
}

/// Why a lifecycle operation was refused.
#[derive(Debug, Clone, Copy, PartialEq, Eq, Structural)]
pub enum LifecycleError {
    /// `start` was called on a runtime that is not in `Initialized`.
    NotInitialized,
}

impl LifecycleError {
    pub fn message(&self) -> (r: &'static str)
        ensures
            r@ == "runtime is not in Initialized state"@,
    {
        "runtime is not in Initialized state"
    }
}

/// The state after a start request: `Starting` from `Initialized`, refused otherwise.
pub open spec fn start_spec(s: RuntimeState) -> Result<RuntimeState, LifecycleError> {
    if s == RuntimeState::Initialized {
        Ok(RuntimeState::Starting)
    } else {
        Err(LifecycleError::NotInitialized)
    }
}

/// The state after a shutdown request: `Stopping` from `Running`; any other
/// state is left as it is (`None`).
pub open spec fn shutdown_spec(s: RuntimeState) -> Option<RuntimeState> {
    if s == RuntimeState::Running {
        Some(RuntimeState::Stopping)
    } else {
        None
    }
}

impl RuntimeState {
    /// Claims the start: only an `Initialized` runtime may start.
    pub fn begin_start(self) -> (r: Result<RuntimeState, LifecycleError>)
        ensures
            r == start_spec(self),
    {
        if self != RuntimeState::Initialized {
            return Err(LifecycleError::NotInitialized);
        }
        Ok(RuntimeState::Starting)
    }

    /// Completes a start: the runtime is running.
    pub fn finish_start(self) -> (r: RuntimeState)
        ensures
            r == RuntimeState::Running,
    {
        RuntimeState::Running
    }

    /// Claims the shutdown of a running runtime; `None` when the runtime is
    /// not running and there is nothing to do.
    pub fn begin_shutdown(self) -> (r: Option<RuntimeState>)
        ensures
            r == shutdown_spec(self),
    {
        if self != RuntimeState::Running {
            return None;
        }
        Some(RuntimeState::Stopping)
    }

    /// Completes a shutdown: the runtime is stopped.
    pub fn finish_shutdown(self) -> (r: RuntimeState)
        ensures
            r == RuntimeState::Stopped,
    {
        RuntimeState::Stopped
    }
}

/// Lifecycle law: a fresh runtime starts and then stops; a runtime starts at
/// most once (a second start, or a start after stopping, is refused); a
/// shutdown of a runtime that is not running changes nothing.
pub proof fn lemma_lifecycle(s: RuntimeState)
    ensures
        start_spec(RuntimeState::Initialized) == Ok::<RuntimeState, LifecycleError>(RuntimeState::Starting),
        shutdown_spec(RuntimeState::Running) == Some(RuntimeState::Stopping),
        s != RuntimeState::Initialized ==> start_spec(s) is Err,
        start_spec(RuntimeState::Running) is Err,
        start_spec(RuntimeState::Stopped) is Err,
        s != RuntimeState::Running ==> shutdown_spec(s) is None,
{
}

} // verus!
