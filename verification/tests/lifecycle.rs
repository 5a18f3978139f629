use axum_frontend::lifecycle::{
  group_exists_from, readiness_step, shutdown_step, startup_step, ReadinessStep, ShutdownStep,
  StartupAction, StartupEvent, PROBE_INTERVAL_MILLIS, TERM_POLL_MILLIS,
};

#[test]
fn readiness_steps() {
  assert_eq!(readiness_step(true, 10, 5), ReadinessStep::Ready);
  assert_eq!(readiness_step(false, 5, 5), ReadinessStep::TimedOut);
  assert_eq!(readiness_step(false, 4, 5), ReadinessStep::RetryAfterMillis(100));
  assert_eq!(PROBE_INTERVAL_MILLIS, 100);
}

#[test]
fn zero_timeout_probes_once() {
  assert_eq!(readiness_step(false, 0, 0), ReadinessStep::TimedOut);
  assert_eq!(readiness_step(true, 0, 0), ReadinessStep::Ready);
}

#[test]
fn startup_steps() {
  assert_eq!(startup_step(StartupEvent::ReadinessSettled { ready: true }), StartupAction::Ready);
  assert_eq!(
    startup_step(StartupEvent::ReadinessSettled { ready: false }),
    StartupAction::FailNotReady
  );
  assert_eq!(startup_step(StartupEvent::ChildExited), StartupAction::ProbeOnce);
  assert_eq!(startup_step(StartupEvent::FinalProbe { ready: true }), StartupAction::Ready);
  assert_eq!(startup_step(StartupEvent::FinalProbe { ready: false }), StartupAction::FailExited);
}

#[test]
fn shutdown_steps() {
  assert_eq!(shutdown_step(false, 0, 10), ShutdownStep::Done);
  assert_eq!(shutdown_step(false, 20, 10), ShutdownStep::Done);
  assert_eq!(shutdown_step(true, 10, 10), ShutdownStep::Kill);
  assert_eq!(shutdown_step(true, 9, 10), ShutdownStep::PollAfterMillis(20));
  assert_eq!(TERM_POLL_MILLIS, 20);
}

#[test]
fn only_no_such_process_means_gone() {
  assert!(group_exists_from(0, None, 3));
  assert!(!group_exists_from(-1, Some(3), 3));
  assert!(group_exists_from(-1, Some(1), 3));
  assert!(group_exists_from(-1, None, 3));
}
