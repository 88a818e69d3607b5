use clipture::runtime::{ObsRuntime, RuntimeError, RuntimePhase};

#[test]
fn submit_before_startup_is_refused() {
    let mut rt: ObsRuntime<u32> = ObsRuntime::new();
    assert_eq!(rt.submit(1), Err(RuntimeError::RuntimeNotStarted));
    assert_eq!(rt.phase, RuntimePhase::NotStarted);
}

#[test]
fn submissions_succeed_after_startup_until_shutdown() {
    let mut rt: ObsRuntime<u32> = ObsRuntime::new();
    assert_eq!(rt.startup(), Ok(()));
    assert_eq!(rt.complete_startup(true), Ok(()));
    assert_eq!(rt.submit(1), Ok(()));
    assert_eq!(rt.submit(2), Ok(()));
    rt.shutdown();
    assert_eq!(rt.submit(3), Err(RuntimeError::JobChannelClosed));
}

#[test]
fn jobs_leave_in_submission_order() {
    let mut rt: ObsRuntime<&str> = ObsRuntime::new();
    rt.startup().unwrap();
    rt.complete_startup(true).unwrap();
    rt.submit("first").unwrap();
    rt.submit("second").unwrap();
    rt.submit("third").unwrap();
    assert_eq!(rt.take_next(), Some("first"));
    rt.submit("fourth").unwrap();
    assert_eq!(rt.take_next(), Some("second"));
    assert_eq!(rt.take_next(), Some("third"));
    assert_eq!(rt.take_next(), Some("fourth"));
    assert_eq!(rt.take_next(), None);
}

#[test]
fn second_startup_is_refused() {
    let mut rt: ObsRuntime<u32> = ObsRuntime::new();
    assert_eq!(rt.startup(), Ok(()));
    assert_eq!(rt.startup(), Err(RuntimeError::RuntimeAlreadyStarted));
    rt.complete_startup(true).unwrap();
    assert_eq!(rt.startup(), Err(RuntimeError::RuntimeAlreadyStarted));
}

#[test]
fn failed_initialisation_is_fatal() {
    let mut rt: ObsRuntime<u32> = ObsRuntime::new();
    assert_eq!(rt.startup(), Ok(()));
    assert_eq!(rt.complete_startup(false), Err(RuntimeError::InitFailed));
    assert_eq!(rt.phase, RuntimePhase::Failed);
    assert_eq!(rt.submit(1), Err(RuntimeError::RuntimeNotStarted));
}

#[test]
fn queued_jobs_drain_after_shutdown() {
    let mut rt: ObsRuntime<u32> = ObsRuntime::new();
    rt.startup().unwrap();
    rt.complete_startup(true).unwrap();
    rt.submit(10).unwrap();
    rt.submit(20).unwrap();
    rt.shutdown();
    assert_eq!(rt.take_next(), Some(10));
    assert_eq!(rt.take_next(), Some(20));
    assert_eq!(rt.take_next(), None);
}
