//! What devices' errors say, and what contexts, futures and shared operations keep.
use vstd::prelude::*;
use crate::device::context::{ExecutionContext, MemPool, Stream};
use crate::device::context;
use crate::device::error::{DeviceError, DeviceErrorV};
use crate::device::future::{DeviceFuture, HostTaskMode, StreamHealth};
use crate::device::future;
use crate::device::lock;
use crate::device::once::{OnceAction, OnceActionV, OnceEvent, OnceState, OnceStateV};
use crate::device::once;
use crate::device::operation::DeviceOp;
use crate::device::submission::{Owners, ReplayResource};
use crate::device::submission;

verus! {

/// The contents of an error keep its kind, and the code or the text.
pub proof fn lemma_error(e: DeviceError)
    ensures
        e matches DeviceError::Driver(code) ==> e@ == DeviceErrorV::Driver(code),
        e matches DeviceError::Internal(t) ==> e@ == DeviceErrorV::Internal(t@),
{
}

/// The library's own errors, in words.
pub proof fn lemma_words(side: Seq<char>)
    ensures
        lock::reentrant() == DeviceErrorV::Internal(
            "DeviceOp execution is non-reentrant: another DeviceOp is already executing on this thread. If this is intentional and you have verified there are no cross-stream data races, use `then_unchecked`."@,
        ),
        once::reentered() == DeviceErrorV::Internal(
            "execute-once operation re-entered from inside its own execution (a shared or unzipped op executing itself)"@,
        ),
        once::panicked() == DeviceErrorV::Internal(
            "execute-once operation panicked while executing"@,
        ),
        once::already_taken(side) == DeviceErrorV::Internal(
            "unzip: the "@ + side + " result was already taken"@,
        ),
        submission::already_completed() == DeviceErrorV::Internal("submission already completed"@),
        future::no_stream() == DeviceErrorV::Internal(
            "Cannot execute future without setting stream on which to execute."@,
        ),
        future::no_operation() == DeviceErrorV::Internal(
            "Unable to execute future: No operation has been set."@,
        ),
        future::leak_text()
            == "cuda-async: leaking the result of a dropped in-flight future; the driver could not prove its GPU work finished: "@,
        submission::drained(StreamHealth::Capturing, Ok(())) == Err::<(), DeviceErrorV>(
            DeviceErrorV::Internal("submission is still being captured"@),
        ),
{
}

/// Four words name a mode, two each; nothing else names one.
pub proof fn lemma_modes(setting: Option<Seq<char>>)
    ensures
        future::named_mode(setting) == Some(HostTaskMode::SpinWait) <==> (setting == Some("spin"@)
            || setting == Some("spinwait"@)),
        future::named_mode(setting) == Some(HostTaskMode::Blocking) <==> (setting == Some("block"@)
            || setting == Some("blocking"@)),
{
    reveal_strlit("spin");
    reveal_strlit("spinwait");
    reveal_strlit("block");
    reveal_strlit("blocking");
    assert("spin"@[0] == 's' && "spinwait"@[0] == 's');
    assert("block"@[0] == 'b' && "blocking"@[0] == 'b');
}

/// A new context is on its stream's device, holds nothing, and keeps the pool and the
/// flag that it was made with.
pub proof fn lemma_fresh<O, R>(
    c: ExecutionContext<O, R>,
    stream: Stream,
    pool: Option<MemPool>,
    recording: bool,
)
    requires
        context::is_fresh(c, stream, pool, recording),
    ensures
        c.cuda_stream == stream,
        c.device == stream.device && c.ordinal == stream.device.ordinal,
        c.pool == pool,
        c.recording == recording,
        c.submission.owners.held() matches Some(s) && s.len() == 0,
        c.submission.recorded@.len() == 0,
{
}

/// Contexts in the same place have the same device, stream, pool and flag.
pub proof fn lemma_same_place<O, R>(a: ExecutionContext<O, R>, b: ExecutionContext<O, R>)
    ensures
        a.same_place(&b) <==> a == (ExecutionContext { submission: a.submission, ..b }),
{
}

/// The owners of a submission are those that were added, none once it has completed.
pub proof fn lemma_held<T>(o: Owners<T>)
    ensures
        o.held() is None <==> o.0 is None,
        o.0 matches Some(v) ==> o.held() == Some(v@),
{
}

/// A completed context has given up its owners, and nothing else has changed.
pub proof fn lemma_completed<O, R>(
    before: Option<ExecutionContext<O, R>>,
    after: Option<ExecutionContext<O, R>>,
)
    requires
        future::completed(before, after),
    ensures
        before is Some <==> after is Some,
        after matches Some(a) ==> {
            &&& a.submission.owners.held() is None
            &&& a == (ExecutionContext {
                submission: a.submission,
                ..before->Some_0
            })
            &&& a.submission.recorded == before->Some_0.submission.recorded
        },
{
}

/// A future executes its operation at most once, and only on a context: without one, or
/// without an operation, it is refused and stays as it was.
pub proof fn lemma_executed<T, O, R, DO: DeviceOp<O, R, Output = T>>(
    before: DeviceFuture<T, DO, O, R>,
    after: DeviceFuture<T, DO, O, R>,
    r: Result<(), DeviceError>,
)
    requires
        after.executed(&before, r),
    ensures
        after.error == before.error && after.state == before.state,
        after.fault_delivered == before.fault_delivered,
        before.execution_context is None ==> after.execution_context is None
            && after.device_operation == before.device_operation && after.result == before.result
            && r is Err && r->Err_0@ == future::no_stream(),
        before.execution_context is Some && before.device_operation is None
            ==> after.execution_context == before.execution_context && after.result
            == before.result && r is Err && r->Err_0@ == future::no_operation(),
        before.execution_context is Some ==> after.device_operation is None
            && after.execution_context is Some,
        before.execution_context is Some && before.device_operation is Some && r is Ok
            ==> after.result is Some && before.device_operation->Some_0.runs(
            before.execution_context->Some_0,
            Ok(after.result->Some_0),
            after.execution_context->Some_0,
        ),
        before.execution_context is Some && before.device_operation is Some && r is Err
            ==> after.result == before.result && before.device_operation->Some_0.runs(
            before.execution_context->Some_0,
            Err(r->Err_0),
            after.execution_context->Some_0,
        ),
{
}

/// Everything but the state and the delivery of a fault is the same.
pub proof fn lemma_same_contents<T, DO, O, R>(
    a: DeviceFuture<T, DO, O, R>,
    b: DeviceFuture<T, DO, O, R>,
)
    ensures
        a.same_contents(&b) <==> a == (DeviceFuture {
            state: a.state,
            fault_delivered: a.fault_delivered,
            ..b
        }),
{
}

/// A shared operation, as its contents show it.
pub proof fn lemma_once<Op, Out>(s: OnceState<Op, Out>, a: OnceAction<Op>)
    ensures
        match s {
            OnceState::Pending(op) => s@ == OnceStateV::<Op, Out>::Pending(op),
            OnceState::Running { thread } => s@ == (OnceStateV::<Op, Out>::Running { thread }),
            OnceState::Done { value, producer } => s@ == (OnceStateV::<Op, Out>::Done {
                value,
                producer,
            }),
            OnceState::Failed(e) => s@ == OnceStateV::<Op, Out>::Failed(e@),
        },
        match a {
            OnceAction::Run(op) => a@ == OnceActionV::Run(op),
            OnceAction::Wait => a@ == OnceActionV::<Op>::Wait,
            OnceAction::Take => a@ == OnceActionV::<Op>::Take,
            OnceAction::Refuse(e) => a@ == OnceActionV::<Op>::Refuse(e@),
        },
{
}

/// The first consumer executes a shared operation. While it executes, others wait and
/// the thread that executes it is refused; afterwards all take the result, or all are
/// refused with the same error.
pub proof fn lemma_entered<Op, Out>(
    before: OnceStateV<Op, Out>,
    after: OnceStateV<Op, Out>,
    me: u64,
    told: OnceActionV<Op>,
)
    requires
        once::happened(before, OnceEvent::Entered { thread: me, told }, after),
    ensures
        before matches OnceStateV::Pending(op) ==> told == OnceActionV::Run(op) && after == (
        OnceStateV::<Op, Out>::Running { thread: me }),
        !(before is Pending) ==> after == before,
        before matches OnceStateV::Running { thread } ==> if thread == me {
            told == OnceActionV::<Op>::Refuse(once::reentered())
        } else {
            told == OnceActionV::<Op>::Wait
        },
        before is Done ==> told == OnceActionV::<Op>::Take,
        before matches OnceStateV::Failed(e) ==> told == OnceActionV::<Op>::Refuse(e),
{
}

/// An execution ends with its result, with the error that kept the result from being
/// recorded, with its own error, or as one that did not return.
pub proof fn lemma_ended<Op, Out>(
    before: OnceStateV<Op, Out>,
    after: OnceStateV<Op, Out>,
    value: Out,
    stream: u64,
    e: DeviceErrorV,
)
    ensures
        once::happened(before, OnceEvent::Produced { value, recorded: Ok(stream) }, after) <==> (
        before is Running && after == (OnceStateV::<Op, Out>::Done {
            value,
            producer: Some(stream),
        })),
        once::happened(before, OnceEvent::Produced { value, recorded: Err(e) }, after) <==> (
        before is Running && after == OnceStateV::<Op, Out>::Failed(e)),
        once::happened(before, OnceEvent::Broken(e), after) <==> (before is Running && after
            == OnceStateV::<Op, Out>::Failed(e)),
        once::happened(before, OnceEvent::Unwound, after) <==> (before is Running && after
            == OnceStateV::<Op, Out>::Failed(once::panicked())),
{
}

/// A graph is replayed by acquiring its resources in their order, each with success.
pub proof fn lemma_replayed<O, R: ReplayResource>(
    recorded: Seq<R>,
    n: int,
    before: ExecutionContext<O, R>,
    after: ExecutionContext<O, R>,
)
    requires
        0 <= n < recorded.len(),
        submission::replayed(recorded, n + 1, before, after),
    ensures
        exists|c: ExecutionContext<O, R>, r: Result<(), DeviceError>|
            submission::replayed(recorded, n, before, c) && #[trigger] recorded[n].retains(
                c,
                r,
                after,
            ) && r is Ok,
{
    assert((n + 1) - 1 == n);
}

/// Nothing is replayed of a graph without resources.
pub proof fn lemma_nothing_replayed<O, R: ReplayResource>(
    recorded: Seq<R>,
    before: ExecutionContext<O, R>,
    after: ExecutionContext<O, R>,
)
    ensures
        submission::replayed(recorded, 0, before, after) <==> after == before,
{
}

} // verus!
