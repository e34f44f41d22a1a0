//! Submissions, futures and operations.
use cutile::device::error::DeviceError;
use cutile::device::future::{
    drain_outcome, host_task_sync_mode, inline_spin_budget_us, DeviceFuture, DeviceFutureState,
    FutureRelease, HostTaskMode, StreamCallbackState, StreamHealth,
};
use cutile::device::lock::ExecutionLock;
use cutile::device::operation::Value;
use cutile::device::submission::{Owners, Release};
use std::any::Any;
use std::sync::atomic::{AtomicUsize, Ordering};
use std::sync::{Arc, Mutex};

type AnyOwners = Owners<Box<dyn Any>>;

#[test]
fn owners_outlive_recovered_or_projected_results() {
    let owner = Arc::new(());
    let weak = Arc::downgrade(&owner);
    let mut submission: AnyOwners = Owners(Some(Vec::new()));
    submission.retain(Box::new(owner)).unwrap();
    assert!(weak.upgrade().is_some());
    submission.release(|| {
        assert!(weak.upgrade().is_some());
        Ok(())
    });
    assert!(weak.upgrade().is_none());
    assert!(submission.retain(Box::new(())).is_err());
}

#[test]
fn forgotten_submission_keeps_owners() {
    let owner = Arc::new(());
    let weak = Arc::downgrade(&owner);
    let mut submission: AnyOwners = Owners(Some(Vec::new()));
    submission.retain(Box::new(owner)).unwrap();
    std::mem::forget(submission);
    assert!(weak.upgrade().is_some());
}

#[test]
fn failed_wait_keeps_owners_and_access_leases() {
    let owner = Arc::new(());
    let weak = Arc::downgrade(&owner);
    let mut submission: AnyOwners = Owners(Some(Vec::new()));
    submission.retain(Box::new(owner)).unwrap();
    submission.release(|| Err(DeviceError::Internal("fault".to_owned())));
    assert!(weak.upgrade().is_some());
}

#[test]
fn a_submission_without_owners_does_not_wait() {
    let mut submission: AnyOwners = Owners::new();
    assert_eq!(submission.release(|| panic!("nothing to wait for")), Release::Dropped);
    assert_eq!(submission.release(|| panic!("nothing to wait for")), Release::Nothing);
}

#[derive(Clone)]
struct DropTracker {
    events: Arc<Mutex<Vec<&'static str>>>,
}

impl Drop for DropTracker {
    fn drop(&mut self) {
        self.events.lock().unwrap().push("drop");
    }
}

struct CountDrop(Arc<AtomicUsize>);

impl Drop for CountDrop {
    fn drop(&mut self) {
        self.0.fetch_add(1, Ordering::Relaxed);
    }
}

type TestFuture<T> = DeviceFuture<T, Value<T>, (), ()>;

fn future_in_state<T>(state: DeviceFutureState, result: Option<T>) -> TestFuture<T> {
    DeviceFuture {
        device_operation: None,
        execution_context: None,
        result,
        error: None,
        state,
        fault_delivered: false,
    }
}

#[test]
fn release_waits_before_dropping_the_result() {
    let events = Arc::new(Mutex::new(Vec::new()));
    let tracker = DropTracker { events: Arc::clone(&events) };
    let mut future = future_in_state(DeviceFutureState::Executing, Some(tracker));

    future.release_in_flight_result_with(|| {
        events.lock().unwrap().push("wait");
        Ok(())
    });

    assert_eq!(events.lock().unwrap().as_slice(), ["wait", "drop"]);
    assert!(future.result.is_none());
    assert!(!future.has_undelivered_submission());
}

#[test]
fn release_leaks_when_the_wait_fails() {
    let drops = Arc::new(AtomicUsize::new(0));
    let mut future =
        future_in_state(DeviceFutureState::Executing, Some(CountDrop(Arc::clone(&drops))));

    let released =
        future.release_in_flight_result_with(|| Err(DeviceError::Internal("boom".to_string())));
    let reports: Vec<String> = released.report("boom").into_iter().collect();

    assert_eq!(drops.load(Ordering::Relaxed), 0);
    assert!(future.result.is_none());
    assert_eq!(reports.len(), 1, "the leak must be reported: {reports:?}");
    assert!(reports[0].contains("dropped in-flight future"));
    assert!(matches!(released, FutureRelease::Leaked(DeviceError::Internal(s)) if s == "boom"));
}

#[test]
fn release_leaks_quietly_after_the_fault_was_delivered() {
    let drops = Arc::new(AtomicUsize::new(0));
    let mut future =
        future_in_state(DeviceFutureState::Complete, Some(CountDrop(Arc::clone(&drops))));
    future.fault_delivered = true;

    let released =
        future.release_in_flight_result_with(|| Err(DeviceError::Internal("boom".to_string())));
    let reports: Vec<String> = released.report("boom").into_iter().collect();

    assert_eq!(drops.load(Ordering::Relaxed), 0, "must still leak, not drop");
    assert!(future.result.is_none());
    assert!(reports.is_empty(), "a delivered fault must not be re-reported: {reports:?}");
}

#[test]
fn release_covers_complete_future_left_by_registration_failure() {
    let events = Arc::new(Mutex::new(Vec::new()));
    let tracker = DropTracker { events: Arc::clone(&events) };
    let mut future = future_in_state(DeviceFutureState::Complete, Some(tracker));

    assert!(future.has_undelivered_submission());
    future.release_in_flight_result_with(|| {
        events.lock().unwrap().push("wait");
        Ok(())
    });

    assert_eq!(events.lock().unwrap().as_slice(), ["wait", "drop"]);
    assert!(!future.has_undelivered_submission());
}

#[test]
fn release_is_noop_after_result_delivery() {
    let mut future: TestFuture<u32> = future_in_state(DeviceFutureState::Complete, None);

    assert!(!future.has_undelivered_submission());
    let released = future
        .release_in_flight_result_with(|| panic!("delivered futures must not wait during release"));
    assert!(matches!(released, FutureRelease::Nothing));
}

#[test]
fn release_is_noop_for_idle_future() {
    let drops = Arc::new(AtomicUsize::new(0));
    let mut future = future_in_state(DeviceFutureState::Idle, Some(CountDrop(Arc::clone(&drops))));

    future.release_in_flight_result_with(|| panic!("idle futures must not wait during release"));
    assert_eq!(drops.load(Ordering::Relaxed), 0);
    assert!(future.result.is_some());

    drop(future);
    assert_eq!(drops.load(Ordering::Relaxed), 1);
}

#[test]
fn dropping_failed_future_is_a_noop() {
    let future: TestFuture<u32> =
        DeviceFuture::failed(DeviceError::Internal("never scheduled".to_owned()));
    drop(future);
}

fn wake(w: Option<Arc<AtomicUsize>>) {
    if let Some(c) = w {
        c.fetch_add(1, Ordering::SeqCst);
    }
}

#[test]
fn signal_without_registered_waker_is_a_noop() {
    let mut state: StreamCallbackState<Arc<AtomicUsize>> = StreamCallbackState::new();
    wake(state.signal());
    assert!(state.complete);
    wake(state.signal());
    assert!(state.complete);
}

#[test]
fn signal_wakes_registered_waker_and_sets_complete() {
    let mut state = StreamCallbackState::new();
    let counter = Arc::new(AtomicUsize::new(0));
    state.register(counter.clone());
    assert_eq!(counter.load(Ordering::SeqCst), 0);
    wake(state.signal());
    assert_eq!(counter.load(Ordering::SeqCst), 1);
    assert!(state.complete);
}

#[test]
fn signal_wakes_only_the_latest_registered_waker() {
    let mut state = StreamCallbackState::new();
    let first = Arc::new(AtomicUsize::new(0));
    let second = Arc::new(AtomicUsize::new(0));
    state.register(first.clone());
    state.register(second.clone());
    wake(state.signal());
    assert_eq!(first.load(Ordering::SeqCst), 0, "stale waker was woken");
    assert_eq!(second.load(Ordering::SeqCst), 1);
}

fn assert_send<T: Send>() {}

#[test]
fn ops_and_futures_are_send() {
    assert_send::<Value<Arc<u8>>>();
    assert_send::<TestFuture<i32>>();
}

#[test]
fn the_lock_is_not_reentrant() {
    let mut lock = ExecutionLock::new();
    assert!(lock.acquire_execution_lock().is_ok());
    assert!(lock.acquire_execution_lock().is_err());
    let was = lock.suspend();
    assert!(was);
    assert!(lock.acquire_execution_lock().is_ok());
    lock.resume(was);
    assert!(lock.held);
    lock.release();
    assert!(lock.acquire_execution_lock().is_ok());
}

#[test]
fn a_drained_stream_is_idle_or_synchronized() {
    assert!(drain_outcome(Some(StreamHealth::Idle), Err(1)).is_ok());
    assert!(drain_outcome(Some(StreamHealth::Busy), Ok(())).is_ok());
    assert!(matches!(
        drain_outcome(Some(StreamHealth::Busy), Err(700)),
        Err(DeviceError::Driver(700))
    ));
    assert!(matches!(
        drain_outcome(Some(StreamHealth::Faulted(9)), Ok(())),
        Err(DeviceError::Driver(9))
    ));
    assert!(drain_outcome(Some(StreamHealth::Capturing), Ok(())).is_err());
    assert!(drain_outcome(None, Ok(())).is_err());
}

#[test]
fn settings_are_read() {
    assert_eq!(host_task_sync_mode(Some("spin")), Some(HostTaskMode::SpinWait));
    assert_eq!(host_task_sync_mode(Some("blocking")), Some(HostTaskMode::Blocking));
    assert_eq!(host_task_sync_mode(Some("other")), None);
    assert_eq!(host_task_sync_mode(None), None);
    assert_eq!(inline_spin_budget_us(None), 20);
    assert_eq!(inline_spin_budget_us(Some("0")), 0);
    assert_eq!(inline_spin_budget_us(Some("150")), 150);
    assert_eq!(inline_spin_budget_us(Some("soon")), 20);
}
