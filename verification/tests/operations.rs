//! Operations, their combinators, and operations that are executed once.
use cutile::device::clones::SharedContext;
use cutile::device::context::{Device, ExecutionContext, MemPool, Stream};
use cutile::device::error::DeviceError;
use cutile::device::future::{
    completion_path, probe_stream, CompletionPath, DeviceFuture, DeviceFutureState, HostTaskMode,
    PollAction, StreamHealth,
};
use cutile::device::lock::ExecutionLock;
use cutile::device::once::{ExecuteOnce, OnceAction, OnceState, Select};
use cutile::device::operation::{
    and_then_with_context, async_on, boxed, chain, empty, execute_and_then_unchecked, inspect,
    map_output, sync_on, value, with_context, DeviceOp, DeviceOpVec, Value,
};
use cutile::device::submission::drain_outcome;
use cutile::device::unzip::{Unzippable1, Unzippable2, Unzippable3, Unzippable6};
use cutile::device::zip::Zippable;

type Context = ExecutionContext<u8, u16>;

fn context() -> Context {
    let stream = Stream { handle: 3, device: Device { ordinal: 1 } };
    ExecutionContext::new(stream, Some(MemPool { handle: 9 }))
}

fn run<DO: DeviceOp<u8, u16>>(op: DO) -> Result<DO::Output, DeviceError> {
    op.execute(&mut context())
}

fn fails() -> Result<u32, DeviceError> {
    Err(DeviceError::Driver(7))
}

struct Fail;

impl DeviceOp<u8, u16> for Fail {
    type Output = u32;

    fn ready(&self) -> bool {
        true
    }

    fn runs(&self, _: Context, _: Result<u32, DeviceError>, _: Context) -> bool {
        true
    }

    fn execute(self, context: &mut Context) -> Result<u32, DeviceError> {
        let _ = context.retain(1);
        fails()
    }
}

#[test]
fn outputs_flow_through_combinators() {
    assert_eq!(run(value(4)).ok(), Some(4));
    assert_eq!(run(chain(value(4), |x: i32| value(x + 1))).ok(), Some(5));
    assert_eq!(run(map_output(value(4), |x: i32| x * 2)).ok(), Some(8));
    assert_eq!(run(inspect(value(4), |x: &i32| assert_eq!(*x, 4))).ok(), Some(4));
    assert_eq!(run(empty(|| value("late"))).ok(), Some("late"));
    assert_eq!(
        run(with_context(|c: &Context| value(c.get_device_id()))).ok(),
        Some(1)
    );
    assert_eq!(
        run(and_then_with_context(value(4), |c: &Context, x: i32| {
            value(x + c.get_device_id() as i32)
        }))
        .ok(),
        Some(5)
    );
    assert_eq!(run(boxed(value(4))).ok(), Some(4));
}

#[test]
fn an_output_is_looked_at_where_there_is_one() {
    let seen = std::cell::Cell::new(0);
    assert_eq!(run(inspect(value(4), |x: &i32| seen.set(*x))).ok(), Some(4));
    assert_eq!(seen.get(), 4);
    assert!(run(inspect(Fail, |_: &u32| panic!("nothing to look at"))).is_err());
}

#[test]
fn the_closure_has_the_lock_to_itself() {
    let mut lock = ExecutionLock::new();
    assert!(lock.acquire_execution_lock().is_ok());
    let nested = |x: i32, l: &mut ExecutionLock| {
        assert!(!l.held);
        let y = sync_on(value(x + 1), l, &mut context(), || Ok(())).unwrap();
        value(y * 2)
    };
    let r = execute_and_then_unchecked(value(4), nested, &mut lock, &mut context());
    assert_eq!(r.ok(), Some(10));
    assert!(lock.held);
    let never = |_: u32, _: &mut ExecutionLock| -> Value<u32> { panic!("nothing follows") };
    assert!(execute_and_then_unchecked(Fail, never, &mut lock, &mut context()).is_err());
    assert!(lock.held);
}

#[test]
fn clones_share_the_submission() {
    let mut c: SharedContext<u8, u16> = SharedContext::new(context());
    assert_eq!(c.add_clone(0), 1);
    assert_eq!(c.add_clone(1), 2);
    assert!(c.retain(0, 5).is_ok());
    assert!(c.retain(2, 6).is_ok());
    assert_eq!(c.context.submission.owners.0, Some(vec![5, 6]));
    c.complete(1);
    for i in 0..3 {
        assert!(matches!(
            c.retain(i, 7),
            Err(DeviceError::Internal(t)) if t == "submission already completed"
        ));
    }
}

#[test]
fn a_stream_that_records_is_not_queried() {
    let never = || -> Result<bool, u32> { panic!("not to be asked") };
    assert_eq!(probe_stream(Err(3), never), StreamHealth::Faulted(3));
    assert_eq!(probe_stream(Ok(true), never), StreamHealth::Capturing);
    assert_eq!(probe_stream(Ok(false), || Ok(true)), StreamHealth::Idle);
    assert_eq!(probe_stream(Ok(false), || Ok(false)), StreamHealth::Busy);
    assert_eq!(probe_stream(Ok(false), || Err(4)), StreamHealth::Faulted(4));
}

#[test]
fn a_failed_operation_fails_for_all() {
    let mut o: ExecuteOnce<&str, u32> = ExecuteOnce::pending("op");
    assert!(matches!(o.enter(1), OnceAction::Run("op")));
    o.settle_failed(DeviceError::Driver(8));
    for thread in 0..4 {
        assert!(matches!(o.enter(thread), OnceAction::Refuse(DeviceError::Driver(8))));
    }
}

#[test]
fn operations_side_by_side_give_tuples() {
    assert_eq!(run((value(1), value("a")).zip()).ok(), Some((1, "a")));
    assert_eq!(
        run((value(1), value(2), value(3), value(4), value(5), value(6)).zip()).ok(),
        Some((1, 2, 3, 4, 5, 6))
    );
    assert!(run((value(1), Fail).zip()).is_err());
    let mut v = DeviceOpVec::new(vec![boxed(value(1)), boxed(value(2))]);
    v.push(value(3));
    assert_eq!(run(v).ok(), Some(vec![1, 2, 3]));
}

#[test]
fn operations_of_different_types_stand_in_one_list() {
    let mut v: DeviceOpVec<u8, u16, u32> = DeviceOpVec::empty();
    v.push(value(1));
    v.push(chain(value(2), |x: u32| value(x + 10)));
    assert!(v.last().is_some());
    v.push(Fail);
    let failing = v.remove(2);
    assert_eq!(run(v).ok(), Some(vec![1, 12]));
    assert!(matches!(run(failing), Err(DeviceError::Driver(7))));
    let mut w: DeviceOpVec<u8, u16, u32> = DeviceOpVec::with_capacity(2);
    w.push(Fail);
    w.push(value(1));
    assert!(matches!(run(w), Err(DeviceError::Driver(7))));
}

#[test]
fn several_results_are_taken_apart() {
    assert_eq!(run(Unzippable1::<u8, u16, u32>::unzip(value((4u32,))).0).ok(), Some(4));
    assert_eq!(run(Unzippable2::<u8, u16, u32, &str>::first(value((1u32, "b")))).ok(), Some(1));
    assert_eq!(run(Unzippable2::<u8, u16, u32, &str>::last(value((1u32, "b")))).ok(), Some("b"));
    let three = || value((1u32, "b", true));
    assert_eq!(run(Unzippable3::<u8, u16, u32, &str, bool>::first(three())).ok(), Some(1));
    assert_eq!(run(Unzippable3::<u8, u16, u32, &str, bool>::last(three())).ok(), Some(true));
    assert_eq!(
        run(Unzippable3::<u8, u16, u32, &str, bool>::nested(three())).ok(),
        Some((1, ("b", true)))
    );
    let six = Unzippable6::<u8, u16, u8, u8, u8, u8, u8, u8>::nested(value((1, 2, 3, 4, 5, 6)));
    assert_eq!(run(six).ok(), Some((1, (2, (3, (4, (5, 6)))))));
}

#[test]
fn a_failing_operation_ends_a_chain() {
    let r = run(chain(Fail, |_: u32| -> Value<u32> { panic!("nothing follows") }));
    assert!(matches!(r, Err(DeviceError::Driver(7))));
}

#[test]
fn owners_go_once_the_stream_was_waited_for() {
    let mut lock = ExecutionLock::new();
    let mut c = context();
    let r = sync_on(Fail, &mut lock, &mut c, || Ok(()));
    assert!(matches!(r, Err(DeviceError::Driver(7))));
    assert!(c.submission.owners.0.is_none());
    let mut c = context();
    let r = sync_on(Fail, &mut lock, &mut c, || Err(700));
    assert!(matches!(r, Err(DeviceError::Driver(700))));
    assert_eq!(c.submission.owners.0, Some(vec![1]));
    assert!(!lock.held);
    assert!(lock.acquire_execution_lock().is_ok());
    assert!(sync_on(value(1), &mut lock, &mut context(), || Ok(())).is_err());
    let mut c = context();
    assert_eq!(async_on(value(2), &mut c).ok(), Some(2));
    assert!(c.retain(5).is_err());
}

#[test]
fn only_the_first_consumer_runs_the_operation() {
    let mut o: ExecuteOnce<&str, u32> = ExecuteOnce::pending("op");
    assert!(matches!(o.enter(1), OnceAction::Run("op")));
    assert!(matches!(o.enter(2), OnceAction::Wait));
    assert!(matches!(o.enter(1), OnceAction::Refuse(DeviceError::Internal(_))));
    assert!(!o.settle_done(5, Ok(3)));
    assert!(matches!(o.enter(2), OnceAction::Take));
    assert!(matches!(o.enter(2), OnceAction::Take));
    assert!(o.must_join(4));
    assert!(!o.must_join(3));
    assert!(matches!(o.state, OnceState::Done { value: 5, producer: Some(3) }));
}

#[test]
fn a_value_without_its_event_is_leaked() {
    let owner = std::rc::Rc::new(());
    let weak = std::rc::Rc::downgrade(&owner);
    let mut o: ExecuteOnce<(), std::rc::Rc<()>> = ExecuteOnce::pending(());
    let _ = o.enter(1);
    assert!(o.settle_done(owner, Err(DeviceError::Driver(1))));
    assert!(weak.upgrade().is_some());
    assert!(matches!(o.enter(2), OnceAction::Refuse(DeviceError::Driver(1))));
    let mut o: ExecuteOnce<(), ()> = ExecuteOnce::pending(());
    let _ = o.enter(1);
    o.settle_on_unwind();
    assert!(matches!(
        o.enter(2),
        OnceAction::Refuse(DeviceError::Internal(s)) if s.contains("panicked")
    ));
}

#[test]
fn each_half_is_taken_once() {
    let mut s: Select<u8, &str, ()> = Select::new(());
    assert!(matches!(s.once.enter(1), OnceAction::Run(())));
    assert!(!s.once.settle_done((Some(1), Some("b")), Ok(3)));
    assert_eq!(s.take_right().ok(), Some("b"));
    assert!(s.once.must_join(4));
    assert!(!s.once.must_join(3));
    assert_eq!(s.take_left().ok(), Some(1));
    assert!(matches!(
        s.take_left(),
        Err(DeviceError::Internal(t)) if t == "unzip: the left result was already taken"
    ));
}

#[test]
fn a_future_goes_from_lock_to_signal() {
    let mut f: DeviceFuture<i32, Value<i32>, u8, u16> =
        DeviceFuture::scheduled(value(6), &context());
    assert!(matches!(f.begin_poll(false), PollAction::AcquireLock));
    assert!(matches!(f.start(Ok(()), 20), PollAction::Spin));
    assert!(matches!(f.spun(Ok(false)), PollAction::Register));
    assert!(matches!(f.registered(Ok(())), PollAction::Pending));
    assert!(f.has_undelivered_submission());
    assert!(matches!(f.begin_poll(false), PollAction::Probe));
    assert!(matches!(f.probed(StreamHealth::Busy), PollAction::Park));
    assert!(matches!(f.parked(false), PollAction::Pending));
    assert!(matches!(f.begin_poll(true), PollAction::Ready(Ok(6))));
    assert!(f.state == DeviceFutureState::Complete);
    assert!(!f.has_undelivered_submission());
}

#[test]
fn a_future_reports_why_it_cannot_run() {
    let mut f: DeviceFuture<i32, Value<i32>, u8, u16> = DeviceFuture::new();
    assert!(matches!(
        f.start(Ok(()), 0),
        PollAction::Ready(Err(DeviceError::Internal(s))) if s.contains("without setting stream")
    ));
    let mut f: DeviceFuture<i32, Value<i32>, u8, u16> = DeviceFuture::failed(DeviceError::Driver(2));
    assert!(matches!(f.begin_poll(false), PollAction::Ready(Err(DeviceError::Driver(2)))));
    let mut f: DeviceFuture<i32, Value<i32>, u8, u16> =
        DeviceFuture::scheduled(value(6), &context());
    assert!(matches!(f.start(Ok(()), 0), PollAction::Register));
    assert!(matches!(f.spun(Err(9)), PollAction::Ready(Err(DeviceError::Driver(9)))));
    assert!(f.fault_delivered);
}

#[test]
fn completion_is_registered_by_setting_or_reactor() {
    assert_eq!(
        completion_path(Some(HostTaskMode::Blocking), true),
        CompletionPath::HostTask(HostTaskMode::Blocking)
    );
    assert_eq!(completion_path(None, true), CompletionPath::Reactor);
    assert_eq!(completion_path(None, false), CompletionPath::HostFunction);
    assert!(drain_outcome(StreamHealth::Idle, Err(1)).is_ok());
    assert!(drain_outcome(StreamHealth::Capturing, Ok(())).is_err());
}
