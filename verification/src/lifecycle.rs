//! The decisions taken while a dev server starts up and shuts down: when the
//! readiness probe gives up, what a child that exits early means, and when a
//! process group that ignores `SIGTERM` gets `SIGKILL`ed.

use vstd::prelude::*;

verus! {

/// How long to wait between two readiness probes, in milliseconds.
pub const PROBE_INTERVAL_MILLIS: u64 = 100;

/// How long a process group gets to exit on `SIGTERM` before `SIGKILL`, in
/// milliseconds.
pub const TERM_GRACE_MILLIS: u64 = 1000;

/// How often the exit of a signalled group is re-checked, in milliseconds.
pub const TERM_POLL_MILLIS: u64 = 20;

/// What the readiness probe does after one connection attempt.
#[derive(Debug, Clone, Copy, PartialEq, Eq)]
pub enum ReadinessStep {
    /// The port accepted a connection.
    Ready,
    /// The port refused and the timeout has elapsed: report `TimedOut`.
    TimedOut,
    /// The port refused within the timeout: sleep this many milliseconds and
    /// try again.
    RetryAfterMillis(u64),
}

/// The readiness decision after one connection attempt.
pub open spec fn readiness_of(connected: bool, elapsed_nanos: u128, timeout_nanos: u128) -> ReadinessStep {
    if connected {
        ReadinessStep::Ready
    } else if elapsed_nanos >= timeout_nanos {
        ReadinessStep::TimedOut
    } else {
        ReadinessStep::RetryAfterMillis(PROBE_INTERVAL_MILLIS)
    }
}

/// One step of polling `host:port` until it accepts a TCP connection or the
/// timeout elapses. `elapsed_nanos` is the time since polling started.
pub fn readiness_step(connected: bool, elapsed_nanos: u128, timeout_nanos: u128) -> (s:
    ReadinessStep)
    ensures
        s == readiness_of(connected, elapsed_nanos, timeout_nanos),
        connected ==> s == ReadinessStep::Ready,
        !connected && elapsed_nanos >= timeout_nanos ==> s == ReadinessStep::TimedOut,
        !connected && elapsed_nanos < timeout_nanos ==> s == ReadinessStep::RetryAfterMillis(100),
{
    if connected {
        ReadinessStep::Ready
    } else if elapsed_nanos >= timeout_nanos {
        ReadinessStep::TimedOut
    } else {
        ReadinessStep::RetryAfterMillis(PROBE_INTERVAL_MILLIS)
    }
}

/// What happened while a freshly spawned dev server was starting.
#[derive(Debug, Clone, Copy, PartialEq, Eq)]
pub enum StartupEvent {
    /// The readiness wait finished first, successfully or not.
    ReadinessSettled { ready: bool },
    /// The child process exited before the readiness wait finished.
    ChildExited,
    /// The single probe made after the child exited.
    FinalProbe { ready: bool },
}

/// What to do next during startup.
#[derive(Debug, Clone, Copy, PartialEq, Eq)]
pub enum StartupAction {
    /// The dev server accepts connections.
    Ready,
    /// Report the readiness wait's own error (it timed out).
    FailNotReady,
    /// Probe the port exactly once more (a zero timeout).
    ProbeOnce,
    /// Report that the dev server exited before becoming ready.
    FailExited,
}

/// Startup decisions: a child that has exited can never bind the port, so the
/// wait stops as soon as it exits; readiness is a property of the port, though,
/// so the port gets one more probe before the exit counts as a failure.
pub fn startup_step(event: StartupEvent) -> (a: StartupAction)
    ensures
        event == (StartupEvent::ReadinessSettled { ready: true }) ==> a == StartupAction::Ready,
        event == (StartupEvent::ReadinessSettled { ready: false }) ==> a
            == StartupAction::FailNotReady,
        event == StartupEvent::ChildExited ==> a == StartupAction::ProbeOnce,
        event == (StartupEvent::FinalProbe { ready: true }) ==> a == StartupAction::Ready,
        event == (StartupEvent::FinalProbe { ready: false }) ==> a == StartupAction::FailExited,
{
    match event {
        StartupEvent::ReadinessSettled { ready } => {
            if ready {
                StartupAction::Ready
            } else {
                StartupAction::FailNotReady
            }
        },
        StartupEvent::ChildExited => StartupAction::ProbeOnce,
        StartupEvent::FinalProbe { ready } => {
            if ready {
                StartupAction::Ready
            } else {
                StartupAction::FailExited
            }
        },
    }
}

/// What the shutdown of a `SIGTERM`ed process group does next.
#[derive(Debug, Clone, Copy, PartialEq, Eq)]
pub enum ShutdownStep {
    /// Nothing is left in the group.
    Done,
    /// The grace period is over and the group is still alive: `SIGKILL` it.
    Kill,
    /// Wait this many milliseconds and check again.
    PollAfterMillis(u64),
}

/// One step of waiting out the grace period after `SIGTERM`.
pub fn shutdown_step(group_exists: bool, elapsed_nanos: u128, grace_nanos: u128) -> (s:
    ShutdownStep)
    ensures
        !group_exists ==> s == ShutdownStep::Done,
        group_exists && elapsed_nanos >= grace_nanos ==> s == ShutdownStep::Kill,
        group_exists && elapsed_nanos < grace_nanos ==> s == ShutdownStep::PollAfterMillis(
            TERM_POLL_MILLIS,
        ),
{
    if !group_exists {
        ShutdownStep::Done
    } else if elapsed_nanos >= grace_nanos {
        ShutdownStep::Kill
    } else {
        ShutdownStep::PollAfterMillis(TERM_POLL_MILLIS)
    }
}

/// Whether a process group still exists, from the result of `kill(-pgid, 0)`
/// and the `errno` it left: only "no such process" means the group is gone
/// (a permission error still means something is there).
pub fn group_exists_from(kill_result: i32, errno: Option<i32>, no_such_process: i32) -> (b: bool)
    ensures
        b == (kill_result == 0 || errno != Some(no_such_process)),
{
    if kill_result == 0 {
        return true;
    }
    match errno {
        Some(e) => e != no_such_process,
        None => true,
    }
}

/// A zero timeout probes exactly once: the first refused connection already
/// times out, whenever it happens; and a port that accepts is ready whatever the
/// timeout.
pub proof fn lemma_zero_timeout_probes_once(elapsed_nanos: u128, timeout_nanos: u128)
    ensures
        readiness_of(false, elapsed_nanos, 0) == ReadinessStep::TimedOut,
        readiness_of(true, elapsed_nanos, timeout_nanos) == ReadinessStep::Ready,
{
}

/// The readiness deadline: a refused probe times out exactly when the elapsed
/// time has reached the timeout, and before that it retries after 100 ms; so
/// once a refused probe times out, every later refused probe does too, and a
/// longer timeout never times out sooner.
pub proof fn lemma_readiness_deadline(elapsed_nanos: u128, later_nanos: u128, timeout_nanos: u128, longer_nanos: u128)
    ensures
        elapsed_nanos >= timeout_nanos ==> readiness_of(false, elapsed_nanos, timeout_nanos)
            == ReadinessStep::TimedOut,
        elapsed_nanos < timeout_nanos ==> readiness_of(false, elapsed_nanos, timeout_nanos)
            == ReadinessStep::RetryAfterMillis(100),
        readiness_of(false, elapsed_nanos, timeout_nanos) == ReadinessStep::TimedOut && elapsed_nanos
            <= later_nanos ==> readiness_of(false, later_nanos, timeout_nanos)
            == ReadinessStep::TimedOut,
        readiness_of(false, elapsed_nanos, longer_nanos) == ReadinessStep::TimedOut && timeout_nanos
            <= longer_nanos ==> readiness_of(false, elapsed_nanos, timeout_nanos)
            == ReadinessStep::TimedOut,
{
}

} // verus!
