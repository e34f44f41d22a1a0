//! Futures of device operations.
//!
//! A future is idle until its first poll, which executes the operation and
//! registers for its completion. It is then executing, until a completion
//! signal or the stream itself shows that the work has finished. The stages of
//! a poll are functions here; between them the caller acquires the lock,
//! queries the stream and registers callbacks.
use vstd::prelude::*;
use crate::device::context::ExecutionContext;
use crate::device::error::{internal, DeviceError, DeviceErrorV};
use crate::device::operation::DeviceOp;
use crate::device::submission::leak;
use crate::text::same_text;
use crate::text;

verus! {

/// Where a future stands.
#[derive(Clone, Copy, Debug, PartialEq, Eq, Structural)]
pub enum DeviceFutureState {
    /// Made with an error; it resolves at once.
    Failed,
    /// Nothing has been submitted.
    Idle,
    /// Work is in flight and a completion callback is registered.
    Executing,
    /// It has resolved.
    Complete,
}

/// What a stream is seen to do, without waiting.
#[derive(Clone, Copy, Debug, PartialEq, Eq, Structural)]
pub enum StreamHealth {
    /// It records a graph, and must not be queried.
    Capturing,
    /// Work is in flight.
    Busy,
    /// All work has completed.
    Idle,
    /// The driver reports an error.
    Faulted(u32),
}

/// Look at a stream without waiting: `capturing` says whether it records a graph, and
/// only where it does not is `query` asked whether its work has completed.
pub fn probe_stream<Q: FnOnce() -> Result<bool, u32>>(
    capturing: Result<bool, u32>,
    query: Q,
) -> (h: StreamHealth)
    requires
        capturing == Ok::<bool, u32>(false) ==> query.requires(()),
    ensures
        match capturing {
            Err(code) => h == StreamHealth::Faulted(code),
            Ok(true) => h == StreamHealth::Capturing,
            Ok(false) => exists|o: Result<bool, u32>| #[trigger]
                query.ensures((), o) && h == (match o {
                    Ok(true) => StreamHealth::Idle,
                    Ok(false) => StreamHealth::Busy,
                    Err(code) => StreamHealth::Faulted(code),
                }),
        },
{
    match capturing {
        Err(code) => StreamHealth::Faulted(code),
        Ok(true) => StreamHealth::Capturing,
        Ok(false) => match query() {
            Ok(true) => StreamHealth::Idle,
            Ok(false) => StreamHealth::Busy,
            Err(code) => StreamHealth::Faulted(code),
        },
    }
}

/// What a completion signal and the task that waits for it share.
pub struct StreamCallbackState<W> {
    pub complete: bool,
    pub waker: Option<W>,
}

impl<W> StreamCallbackState<W> {
    /// Not complete, and nobody waits.
    pub fn new() -> (s: StreamCallbackState<W>)
        ensures
            !s.complete,
            s.waker is None,
    {
        StreamCallbackState { complete: false, waker: None }
    }

    /// Wake `waker`, and no earlier one, at the next signal.
    pub fn register(&mut self, waker: W)
        ensures
            final(self).complete == old(self).complete,
            final(self).waker == Some(waker),
    {
        self.waker = Some(waker);
    }

    /// The work has completed. The result is to be woken.
    pub fn signal(&mut self) -> (w: Option<W>)
        ensures
            final(self).complete,
            final(self).waker is None,
            w == old(self).waker,
    {
        self.complete = true;
        self.waker.take()
    }

    /// Have the task look at the stream itself. The result is to be woken.
    pub fn wake(&mut self) -> (w: Option<W>)
        ensures
            final(self).complete == old(self).complete,
            final(self).waker is None,
            w == old(self).waker,
    {
        self.waker.take()
    }
}

/// What a poll asks for next.
pub enum PollAction<T> {
    /// Acquire the execution lock, and go on with `start`.
    AcquireLock,
    /// Query the stream within the spin budget, and go on with `spun`.
    Spin,
    /// Register for completion, and go on with `registered`.
    Register,
    /// Look at the stream, and go on with `probed`.
    Probe,
    /// Renew the waker, and go on with `parked`.
    Park,
    /// Wait to be woken.
    Pending,
    /// The outcome.
    Ready(Result<T, DeviceError>),
}

/// What became of an undelivered result.
pub enum FutureRelease {
    /// There was none.
    Nothing,
    /// It was dropped: the work has finished.
    Dropped,
    /// It was leaked, and the fault is known to the caller.
    LeakedQuietly,
    /// It was leaked, for this reason, which is to be reported.
    Leaked(DeviceError),
}

impl FutureRelease {
    /// What is to be reported, given the error in words: a leak that the caller
    /// does not know of.
    pub fn report(&self, error: &str) -> (r: Option<String>)
        ensures
            match *self {
                FutureRelease::Leaked(_) => r is Some && r->Some_0@ == leak_text() + error@,
                _ => r is None,
            },
    {
        match self {
            FutureRelease::Leaked(_) => {
                let mut s: String =
                    "cuda-async: leaking the result of a dropped in-flight future; the driver could not prove its GPU work finished: ".to_owned();
                s.append(error);
                Some(s)
            },
            _ => None,
        }
    }
}

/// How the report of a leak starts.
pub open spec fn leak_text() -> Seq<char> {
    "cuda-async: leaking the result of a dropped in-flight future; the driver could not prove its GPU work finished: "@
}

/// A future that executes an operation and resolves when the work completes.
pub struct DeviceFuture<T, DO, O, R> {
    pub device_operation: Option<DO>,
    pub execution_context: Option<ExecutionContext<O, R>>,
    pub result: Option<T>,
    pub error: Option<DeviceError>,
    pub state: DeviceFutureState,
    /// The caller has been given the stream's fault.
    pub fault_delivered: bool,
}

/// Why nothing can be executed without a context.
pub open spec fn no_stream() -> DeviceErrorV {
    DeviceErrorV::Internal("Cannot execute future without setting stream on which to execute."@)
}

/// Why nothing can be executed without an operation.
pub open spec fn no_operation() -> DeviceErrorV {
    DeviceErrorV::Internal("Unable to execute future: No operation has been set."@)
}

/// The submission of a context is complete; nothing else has changed.
pub open spec fn completed<O, R>(
    before: Option<ExecutionContext<O, R>>,
    after: Option<ExecutionContext<O, R>>,
) -> bool {
    match (before, after) {
        (Some(b), Some(a)) => {
            &&& a.same_place(&b)
            &&& a.submission.owners.held() is None
            &&& a.submission.recorded == b.submission.recorded
        },
        (None, None) => true,
        _ => false,
    }
}

impl<T, DO, O, R> DeviceFuture<T, DO, O, R> {
    /// The future has resolved with its result: the submission is complete and
    /// the result has been handed out.
    pub open spec fn delivered(&self, before: &DeviceFuture<T, DO, O, R>, r: PollAction<T>) -> bool {
        &&& before.result is Some
        &&& r == PollAction::<T>::Ready(Ok(before.result->Some_0))
        &&& self.state == DeviceFutureState::Complete
        &&& self.result is None
        &&& completed(before.execution_context, self.execution_context)
        &&& self.error == before.error
        &&& self.device_operation == before.device_operation
        &&& self.fault_delivered == before.fault_delivered
    }

    /// Everything but the state and the delivery of a fault is the same.
    pub open spec fn same_contents(&self, before: &DeviceFuture<T, DO, O, R>) -> bool {
        &&& self.device_operation == before.device_operation
        &&& self.execution_context == before.execution_context
        &&& self.result == before.result
        &&& self.error == before.error
    }

    /// An idle future without operation or context.
    pub fn new() -> (f: DeviceFuture<T, DO, O, R>)
        ensures
            f.device_operation is None,
            f.execution_context is None,
            f.result is None,
            f.error is None,
            f.state == DeviceFutureState::Idle,
            !f.fault_delivered,
    {
        DeviceFuture {
            device_operation: None,
            execution_context: None,
            result: None,
            error: None,
            state: DeviceFutureState::Idle,
            fault_delivered: false,
        }
    }

    /// A future for an operation on the context's stream, with a submission of
    /// its own.
    pub fn scheduled(op: DO, ctx: &ExecutionContext<O, R>) -> (f: DeviceFuture<T, DO, O, R>)
        ensures
            f.device_operation == Some(op),
            f.execution_context is Some,
            ({
                let c = f.execution_context->Some_0;
                &&& c.ordinal == ctx.ordinal
                &&& c.cuda_stream == ctx.cuda_stream
                &&& c.device == ctx.device
                &&& c.pool == ctx.pool
                &&& !c.recording
                &&& c.submission.owners.held() == Some(Seq::<O>::empty())
                &&& c.submission.recorded@ == Seq::<R>::empty()
            }),
            f.result is None,
            f.error is None,
            f.state == DeviceFutureState::Idle,
            !f.fault_delivered,
    {
        DeviceFuture {
            device_operation: Some(op),
            execution_context: Some(ctx.fresh_submission()),
            result: None,
            error: None,
            state: DeviceFutureState::Idle,
            fault_delivered: false,
        }
    }

    /// A future that resolves with an error at once.
    pub fn failed(error: DeviceError) -> (f: DeviceFuture<T, DO, O, R>)
        ensures
            f.device_operation is None,
            f.execution_context is None,
            f.result is None,
            f.error == Some(error),
            f.state == DeviceFutureState::Failed,
            !f.fault_delivered,
    {
        DeviceFuture {
            device_operation: None,
            execution_context: None,
            result: None,
            error: Some(error),
            state: DeviceFutureState::Failed,
            fault_delivered: false,
        }
    }

    fn take_completed_result(&mut self) -> (t: T)
        requires
            old(self).result is Some,
        ensures
            t == old(self).result->Some_0,
            final(self).result is None,
            completed(old(self).execution_context, final(self).execution_context),
            final(self).device_operation == old(self).device_operation,
            final(self).error == old(self).error,
            final(self).state == old(self).state,
            final(self).fault_delivered == old(self).fault_delivered,
    {
        match self.execution_context.take() {
            Some(mut ctx) => {
                ctx.complete();
                self.execution_context = Some(ctx);
            },
            None => {},
        }
        self.result.take().unwrap()
    }

    fn deliver(&mut self) -> (a: PollAction<T>)
        requires
            old(self).result is Some,
        ensures
            final(self).delivered(old(self), a),
    {
        self.state = DeviceFutureState::Complete;
        PollAction::Ready(Ok(self.take_completed_result()))
    }

    /// The future is polled; `complete` says whether the completion signal has
    /// come. A future that has resolved must not be polled again.
    pub fn begin_poll(&mut self, complete: bool) -> (a: PollAction<T>)
        requires
            old(self).state != DeviceFutureState::Complete,
            old(self).state == DeviceFutureState::Failed ==> old(self).error is Some,
            old(self).state == DeviceFutureState::Executing ==> old(self).result is Some,
        ensures
            match old(self).state {
                DeviceFutureState::Failed => {
                    &&& a == PollAction::<T>::Ready(Err(old(self).error->Some_0))
                    &&& final(self).state == DeviceFutureState::Complete
                    &&& final(self).error is None
                    &&& final(self).result == old(self).result
                    &&& final(self).execution_context == old(self).execution_context
                    &&& final(self).device_operation == old(self).device_operation
                    &&& final(self).fault_delivered == old(self).fault_delivered
                },
                DeviceFutureState::Executing => if complete {
                    final(self).delivered(old(self), a)
                } else {
                    a == PollAction::<T>::Probe && *final(self) == *old(self)
                },
                _ => a == PollAction::<T>::AcquireLock && *final(self) == *old(self),
            },
    {
        if self.state == DeviceFutureState::Failed {
            self.state = DeviceFutureState::Complete;
            return PollAction::Ready(Err(self.error.take().unwrap()));
        }
        if self.state == DeviceFutureState::Executing {
            if complete {
                return self.deliver();
            }
            return PollAction::Probe;
        }
        PollAction::AcquireLock
    }

    /// The stream was queried within the spin budget: finished, still busy, or
    /// at fault.
    pub fn spun(&mut self, outcome: Result<bool, u32>) -> (a: PollAction<T>)
        requires
            old(self).result is Some,
        ensures
            match outcome {
                Ok(true) => final(self).delivered(old(self), a),
                Ok(false) => a == PollAction::<T>::Register && *final(self) == *old(self),
                Err(code) => final(self).faulted(old(self), code, a),
            },
    {
        match outcome {
            Ok(true) => self.deliver(),
            Ok(false) => PollAction::Register,
            Err(code) => self.fault(code),
        }
    }

    /// The future has resolved with the stream's fault; its result stays, to
    /// be leaked.
    pub open spec fn faulted(
        &self,
        before: &DeviceFuture<T, DO, O, R>,
        code: u32,
        r: PollAction<T>,
    ) -> bool {
        &&& r == PollAction::<T>::Ready(Err(DeviceError::Driver(code)))
        &&& self.state == DeviceFutureState::Complete
        &&& self.fault_delivered
        &&& self.same_contents(before)
    }

    fn fault(&mut self, code: u32) -> (a: PollAction<T>)
        ensures
            final(self).faulted(old(self), code, a),
    {
        self.state = DeviceFutureState::Complete;
        self.fault_delivered = true;
        PollAction::Ready(Err(DeviceError::Driver(code)))
    }

    /// Completion has been registered for, or could not be.
    pub fn registered(&mut self, outcome: Result<(), DeviceError>) -> (a: PollAction<T>)
        ensures
            final(self).same_contents(old(self)),
            final(self).fault_delivered == old(self).fault_delivered,
            match outcome {
                Ok(()) => a == PollAction::<T>::Pending && final(self).state
                    == DeviceFutureState::Executing,
                Err(e) => a == PollAction::<T>::Ready(Err(e)) && final(self).state
                    == DeviceFutureState::Complete,
            },
    {
        match outcome {
            Ok(()) => {
                self.state = DeviceFutureState::Executing;
                PollAction::Pending
            },
            Err(e) => {
                self.state = DeviceFutureState::Complete;
                PollAction::Ready(Err(e))
            },
        }
    }

    /// The stream was looked at. A fault is the outcome, since no signal will
    /// come; a stream that is idle has finished and only the signal is late.
    pub fn probed(&mut self, health: StreamHealth) -> (a: PollAction<T>)
        requires
            old(self).result is Some,
        ensures
            match health {
                StreamHealth::Faulted(code) => final(self).faulted(old(self), code, a),
                StreamHealth::Idle => final(self).delivered(old(self), a),
                _ => a == PollAction::<T>::Park && *final(self) == *old(self),
            },
    {
        match health {
            StreamHealth::Faulted(code) => self.fault(code),
            StreamHealth::Idle => self.deliver(),
            StreamHealth::Busy => PollAction::Park,
            StreamHealth::Capturing => PollAction::Park,
        }
    }

    /// The waker was renewed; `complete` says whether the completion signal
    /// came before that.
    pub fn parked(&mut self, complete: bool) -> (a: PollAction<T>)
        requires
            old(self).result is Some,
        ensures
            if complete {
                final(self).delivered(old(self), a)
            } else {
                a == PollAction::<T>::Pending && *final(self) == *old(self)
            },
    {
        if complete {
            self.deliver()
        } else {
            PollAction::Pending
        }
    }

    /// Work was submitted and its result has not been handed out.
    pub open spec fn undelivered(&self) -> bool {
        (self.state == DeviceFutureState::Executing || self.state == DeviceFutureState::Complete)
            && self.result is Some
    }

    /// Whether work was submitted and its result has not been handed out.
    pub fn has_undelivered_submission(&self) -> (b: bool)
        ensures
            b == self.undelivered(),
    {
        (self.state == DeviceFutureState::Executing || self.state == DeviceFutureState::Complete)
            && self.result.is_some()
    }

    /// Wait for the submitted work, and drop the undelivered result. Where the
    /// wait fails, the result is leaked: the device may still use it.
    pub fn release_in_flight_result_with<F: FnOnce() -> Result<(), DeviceError>>(
        &mut self,
        wait: F,
    ) -> (r: FutureRelease)
        requires
            old(self).undelivered() ==> wait.requires(()),
        ensures
            final(self).state == old(self).state,
            final(self).device_operation == old(self).device_operation,
            final(self).execution_context == old(self).execution_context,
            final(self).error == old(self).error,
            final(self).fault_delivered == old(self).fault_delivered,
            if !old(self).undelivered() {
                r is Nothing && final(self).result == old(self).result
            } else {
                &&& final(self).result is None
                &&& exists|o: Result<(), DeviceError>| #[trigger]
                    wait.ensures((), o) && r == (match o {
                        Ok(()) => FutureRelease::Dropped,
                        Err(e) => if old(self).fault_delivered {
                            FutureRelease::LeakedQuietly
                        } else {
                            FutureRelease::Leaked(e)
                        },
                    })
            },
    {
        if !self.has_undelivered_submission() {
            return FutureRelease::Nothing;
        }
        let result = self.result.take();
        match wait() {
            Ok(()) => FutureRelease::Dropped,
            Err(e) => {
                leak(result);
                if self.fault_delivered {
                    FutureRelease::LeakedQuietly
                } else {
                    FutureRelease::Leaked(e)
                }
            },
        }
    }
}

impl<T, O, R, DO: DeviceOp<O, R, Output = T>> DeviceFuture<T, DO, O, R> {
    /// The operation was executed, or could not be: from `before`, with this
    /// outcome, to `self`.
    pub open spec fn executed(
        &self,
        before: &DeviceFuture<T, DO, O, R>,
        r: Result<(), DeviceError>,
    ) -> bool {
        &&& self.error == before.error
        &&& self.state == before.state
        &&& self.fault_delivered == before.fault_delivered
        &&& match (before.execution_context, before.device_operation) {
            (None, _) => {
                &&& r is Err
                &&& r->Err_0@ == no_stream()
                &&& self.execution_context is None
                &&& self.device_operation == before.device_operation
                &&& self.result == before.result
            },
            (Some(c), None) => {
                &&& r is Err
                &&& r->Err_0@ == no_operation()
                &&& self.execution_context == Some(c)
                &&& self.device_operation is None
                &&& self.result == before.result
            },
            (Some(c), Some(op)) => {
                &&& self.execution_context is Some
                &&& self.device_operation is None
                &&& exists|x: Result<T, DeviceError>| #[trigger]
                    op.runs(c, x, self.execution_context->Some_0) && match x {
                        Ok(t) => r is Ok && self.result == Some(t),
                        Err(e) => r == Err::<(), DeviceError>(e) && self.result == before.result,
                    }
            },
        }
    }

    /// Execute the operation on the context, and keep its output.
    fn execute(&mut self) -> (r: Result<(), DeviceError>)
        requires
            old(self).device_operation is Some ==> old(self).device_operation->Some_0.ready(),
        ensures
            final(self).executed(old(self), r),
    {
        match self.execution_context.take() {
            None => Err(
                internal("Cannot execute future without setting stream on which to execute."),
            ),
            Some(mut ctx) => {
                match self.device_operation.take() {
                    None => {
                        self.execution_context = Some(ctx);
                        Err(internal("Unable to execute future: No operation has been set."))
                    },
                    Some(op) => {
                        let ghost c = ctx;
                        let ghost o = op;
                        let out = op.execute(&mut ctx);
                        self.execution_context = Some(ctx);
                        assert(o.runs(c, out, self.execution_context->Some_0));
                        match out {
                            Ok(t) => {
                                self.result = Some(t);
                                Ok(())
                            },
                            Err(e) => Err(e),
                        }
                    },
                }
            },
        }
    }

    /// The execution lock was acquired, or not. With it the operation is
    /// executed; then the stream is watched for a while, unless the budget for
    /// that is nothing.
    pub fn start(&mut self, locked: Result<(), DeviceError>, spin_budget_us: u64) -> (a: PollAction<T>)
        requires
            old(self).state == DeviceFutureState::Idle,
            old(self).device_operation is Some ==> old(self).device_operation->Some_0.ready(),
        ensures
            match locked {
                Err(e) => {
                    &&& a == PollAction::<T>::Ready(Err(e))
                    &&& final(self).state == DeviceFutureState::Complete
                    &&& final(self).same_contents(old(self))
                    &&& final(self).fault_delivered == old(self).fault_delivered
                },
                Ok(()) => exists|m: DeviceFuture<T, DO, O, R>, r: Result<(), DeviceError>| #[trigger]
                    m.executed(old(self), r) && final(self).same_contents(&m)
                        && final(self).fault_delivered == old(self).fault_delivered && match r {
                        Err(e) => {
                            &&& a == PollAction::<T>::Ready(Err(e))
                            &&& final(self).state == DeviceFutureState::Complete
                        },
                        Ok(()) => {
                            &&& a == (if spin_budget_us == 0 {
                                PollAction::<T>::Register
                            } else {
                                PollAction::<T>::Spin
                            })
                            &&& final(self).state == DeviceFutureState::Idle
                            &&& final(self).result is Some
                        },
                    },
            },
    {
        match locked {
            Err(e) => {
                self.state = DeviceFutureState::Complete;
                PollAction::Ready(Err(e))
            },
            Ok(()) => {
                let r = self.execute();
                let ghost m = *self;
                match r {
                    Err(e) => {
                        self.state = DeviceFutureState::Complete;
                        assert(m.executed(old(self), Err(e)));
                        PollAction::Ready(Err(e))
                    },
                    Ok(()) => {
                        assert(m.executed(old(self), Ok(())));
                        if spin_budget_us == 0 {
                            PollAction::Register
                        } else {
                            PollAction::Spin
                        }
                    },
                }
            },
        }
    }
}

/// How the host waits for a stream: what that says of the work.
pub open spec fn drained(
    health: Option<StreamHealth>,
    synchronized: Result<(), u32>,
) -> Result<(), DeviceErrorV> {
    match health {
        None => Err(
            DeviceErrorV::Internal(
                "Cannot release an in-flight future without an execution context."@,
            ),
        ),
        Some(StreamHealth::Idle) => Ok(()),
        Some(StreamHealth::Busy) => match synchronized {
            Ok(()) => Ok(()),
            Err(code) => Err(DeviceErrorV::Driver(code)),
        },
        Some(StreamHealth::Capturing) => Err(
            DeviceErrorV::Internal(
                "the future's stream is recording a graph; it cannot be synchronized"@,
            ),
        ),
        Some(StreamHealth::Faulted(code)) => Err(DeviceErrorV::Driver(code)),
    }
}

/// Whether the work of a dropped future is known to have finished, by the
/// health of its stream and, where that is busy, the outcome of synchronizing
/// it. A stream that is captured cannot be waited for, and one at fault proves
/// nothing.
pub fn drain_outcome(health: Option<StreamHealth>, synchronized: Result<(), u32>) -> (r: Result<
    (),
    DeviceError,
>)
    ensures
        match drained(health, synchronized) {
            Ok(()) => r is Ok,
            Err(e) => r is Err && r->Err_0@ == e,
        },
{
    match health {
        None => Err(internal("Cannot release an in-flight future without an execution context.")),
        Some(StreamHealth::Idle) => Ok(()),
        Some(StreamHealth::Busy) => match synchronized {
            Ok(()) => Ok(()),
            Err(code) => Err(DeviceError::Driver(code)),
        },
        Some(StreamHealth::Capturing) => Err(
            internal("the future's stream is recording a graph; it cannot be synchronized"),
        ),
        Some(StreamHealth::Faulted(code)) => Err(DeviceError::Driver(code)),
    }
}

/// How the driver runs a host function.
#[derive(Clone, Copy, Debug, PartialEq, Eq, Structural)]
pub enum HostTaskMode {
    SpinWait,
    Blocking,
}

/// The mode that a setting names.
pub open spec fn named_mode(setting: Option<Seq<char>>) -> Option<HostTaskMode> {
    match setting {
        Some(s) => if s == "spin"@ || s == "spinwait"@ {
            Some(HostTaskMode::SpinWait)
        } else if s == "block"@ || s == "blocking"@ {
            Some(HostTaskMode::Blocking)
        } else {
            None
        },
        None => None,
    }
}

/// The mode that the setting names, if there is a setting and it names one.
pub fn host_task_sync_mode(setting: Option<&str>) -> (m: Option<HostTaskMode>)
    ensures
        m == named_mode(
            match setting {
                Some(s) => Some(s@),
                None => None,
            },
        ),
{
    match setting {
        None => None,
        Some(s) => if same_text(s, "spin") || same_text(s, "spinwait") {
            Some(HostTaskMode::SpinWait)
        } else if same_text(s, "block") || same_text(s, "blocking") {
            Some(HostTaskMode::Blocking)
        } else {
            None
        },
    }
}

/// How completion is registered for.
#[derive(Clone, Copy, Debug, PartialEq, Eq, Structural)]
pub enum CompletionPath {
    /// The setting asks for a host function in this mode.
    HostTask(HostTaskMode),
    /// The reactor has taken it.
    Reactor,
    /// A host function: the reactor was not able to.
    HostFunction,
}

/// How completion is registered for: an explicit mode passes the reactor by.
pub fn completion_path(mode: Option<HostTaskMode>, reactor_took_it: bool) -> (p: CompletionPath)
    ensures
        p == (match mode {
            Some(m) => CompletionPath::HostTask(m),
            None => if reactor_took_it {
                CompletionPath::Reactor
            } else {
                CompletionPath::HostFunction
            },
        }),
{
    match mode {
        Some(m) => CompletionPath::HostTask(m),
        None => if reactor_took_it {
            CompletionPath::Reactor
        } else {
            CompletionPath::HostFunction
        },
    }
}

/// The spin budget in microseconds that a setting gives: a decimal number that
/// fits, else twenty.
pub fn inline_spin_budget_us(setting: Option<&str>) -> (n: u64)
    ensures
        n as int == (match setting {
            Some(s) => match text::unsigned_below(s@, 0x1_0000_0000_0000_0000) {
                Some(v) => v,
                None => 20,
            },
            None => 20,
        }),
{
    match setting {
        None => 20,
        Some(s) => match text::parse_unsigned(s) {
            Some(v) => v,
            None => 20,
        },
    }
}

/// A future resolves once: whatever stage hands out an outcome leaves it
/// complete, and a complete future is not polled.
pub proof fn lemma_outcome_ends<T, DO, O, R>(
    before: DeviceFuture<T, DO, O, R>,
    after: DeviceFuture<T, DO, O, R>,
    code: u32,
    a: PollAction<T>,
)
    requires
        after.delivered(&before, a) || after.faulted(&before, code, a),
    ensures
        a is Ready,
        after.state == DeviceFutureState::Complete,
        a->Ready_0 is Ok ==> !after.undelivered(),
        a->Ready_0 is Err && before.result is Some ==> after.undelivered() && after.fault_delivered,
{
}

} // verus!
