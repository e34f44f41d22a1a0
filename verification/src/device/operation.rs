//! Lazy device operations and their combinators.
use vstd::prelude::*;
use crate::device::context::ExecutionContext;
use crate::device::error::{DeviceError, DeviceErrorV};
use crate::device::lock::ExecutionLock;
use crate::device::lock;

verus! {

/// A lazy operation. It does nothing until it is executed on a context; `O` is
/// the type of the owners and `R` that of the recorded resources of the
/// context.
pub trait DeviceOp<O, R>: Sized {
    type Output;

    /// The operation can be executed.
    spec fn ready(&self) -> bool;

    /// From a context, an execution may end with this outcome and leave the
    /// context like this.
    spec fn runs(
        &self,
        before: ExecutionContext<O, R>,
        r: Result<Self::Output, DeviceError>,
        after: ExecutionContext<O, R>,
    ) -> bool;

    /// Enqueue the operation.
    fn execute(self, context: &mut ExecutionContext<O, R>) -> (r: Result<Self::Output, DeviceError>)
        requires
            self.ready(),
        ensures
            self.runs(*old(context), r, *final(context)),
    ;
}

/// An operation that can be recorded into a graph.
pub trait GraphNode<O, R>: DeviceOp<O, R> {

}

/// An operation that only hands out a value.
pub struct Value<T>(pub T);

impl<T> Value<T> {
    /// An operation that hands out the value.
    pub fn new(value: T) -> (v: Value<T>)
        ensures
            v.0 == value,
    {
        Value(value)
    }
}

impl<O, R, T> DeviceOp<O, R> for Value<T> {
    type Output = T;

    open spec fn ready(&self) -> bool {
        true
    }

    /// Always succeeds, and leaves the context alone.
    open spec fn runs(
        &self,
        before: ExecutionContext<O, R>,
        r: Result<T, DeviceError>,
        after: ExecutionContext<O, R>,
    ) -> bool {
        r == Ok::<T, DeviceError>(self.0) && after == before
    }

    fn execute(self, context: &mut ExecutionContext<O, R>) -> (r: Result<T, DeviceError>) {
        Ok(self.0)
    }
}

impl<O, R, T> GraphNode<O, R> for Value<T> {

}

/// An operation that hands out `x`.
pub fn value<T>(x: T) -> (v: Value<T>)
    ensures
        v.0 == x,
{
    Value::new(x)
}

/// Execute an operation, and what follows from its output.
pub fn execute_and_then<O, R, DI: DeviceOp<O, R>, DO: DeviceOp<O, R>, F: FnOnce(DI::Output) -> DO>(
    op: DI,
    closure: F,
    context: &mut ExecutionContext<O, R>,
) -> (r: Result<DO::Output, DeviceError>)
    requires
        op.ready(),
        forall|i: DI::Output| #[trigger] call_requires(closure, (i,)),
        forall|i: DI::Output, d: DO| #[trigger] call_ensures(closure, (i,), d) ==> d.ready(),
    ensures
        exists|x: Result<DI::Output, DeviceError>, c: ExecutionContext<O, R>| #[trigger]
            op.runs(*old(context), x, c) && match x {
                Err(e) => r == Err::<DO::Output, DeviceError>(e) && *final(context) == c,
                Ok(i) => exists|d: DO| #[trigger]
                    call_ensures(closure, (i,), d) && d.runs(c, r, *final(context)),
            },
{
    let input = op.execute(context)?;
    let next = closure(input);
    next.execute(context)
}

/// Execute an operation, and what follows from its output. The closure is handed the
/// execution lock, which is given up while it runs, so that it may execute operations
/// of its own; then the lock is as it was.
pub fn execute_and_then_unchecked<
    O,
    R,
    DI: DeviceOp<O, R>,
    DO: DeviceOp<O, R>,
    F: FnOnce(DI::Output, &mut ExecutionLock) -> DO,
>(op: DI, closure: F, lock: &mut ExecutionLock, context: &mut ExecutionContext<O, R>) -> (r: Result<
    DO::Output,
    DeviceError,
>)
    requires
        op.ready(),
        forall|i: DI::Output, l: &mut ExecutionLock|
            !l.held ==> #[trigger] call_requires(closure, (i, l)),
        forall|i: DI::Output, l: &mut ExecutionLock, d: DO| #[trigger]
            call_ensures(closure, (i, l), d) ==> d.ready(),
    ensures
        final(lock).held == old(lock).held,
        exists|x: Result<DI::Output, DeviceError>, c: ExecutionContext<O, R>| #[trigger]
            op.runs(*old(context), x, c) && match x {
                Err(e) => r == Err::<DO::Output, DeviceError>(e) && *final(context) == c,
                Ok(i) => exists|l: &mut ExecutionLock, d: DO| #[trigger]
                    call_ensures(closure, (i, l), d) && !l.held && d.runs(c, r, *final(context)),
            },
{
    let input = op.execute(context)?;
    let was_held: bool = lock.suspend();
    let next = closure(input, lock);
    lock.resume(was_held);
    next.execute(context)
}

/// Execute an operation, and what follows from its output and the context that
/// it left.
pub fn execute_and_then_with_context<O, R, DI: DeviceOp<O, R>, DO: DeviceOp<O, R>, F>(
    op: DI,
    closure: F,
    context: &mut ExecutionContext<O, R>,
) -> (r: Result<DO::Output, DeviceError>) where F: FnOnce(&ExecutionContext<O, R>, DI::Output) -> DO
    requires
        op.ready(),
        forall|c: ExecutionContext<O, R>, i: DI::Output| #[trigger]
            call_requires(closure, (&c, i)),
        forall|c: ExecutionContext<O, R>, i: DI::Output, d: DO| #[trigger]
            call_ensures(closure, (&c, i), d) ==> d.ready(),
    ensures
        exists|x: Result<DI::Output, DeviceError>, c: ExecutionContext<O, R>| #[trigger]
            op.runs(*old(context), x, c) && match x {
                Err(e) => r == Err::<DO::Output, DeviceError>(e) && *final(context) == c,
                Ok(i) => exists|d: DO| #[trigger]
                    call_ensures(closure, (&c, i), d) && d.runs(c, r, *final(context)),
            },
{
    let input = op.execute(context)?;
    let next = closure(&*context, input);
    next.execute(context)
}

/// Execute an operation that a closure makes.
pub fn execute_empty<O, R, DO: DeviceOp<O, R>, F: FnOnce() -> DO>(
    closure: F,
    context: &mut ExecutionContext<O, R>,
) -> (r: Result<DO::Output, DeviceError>)
    requires
        call_requires(closure, ()),
        forall|d: DO| #[trigger] call_ensures(closure, (), d) ==> d.ready(),
    ensures
        exists|d: DO| #[trigger]
            call_ensures(closure, (), d) && d.runs(*old(context), r, *final(context)),
{
    let next = closure();
    next.execute(context)
}

/// Execute an operation that a closure makes from the context.
pub fn execute_with_context<O, R, DO: DeviceOp<O, R>, F: FnOnce(&ExecutionContext<O, R>) -> DO>(
    f: F,
    context: &mut ExecutionContext<O, R>,
) -> (r: Result<DO::Output, DeviceError>)
    requires
        forall|c: ExecutionContext<O, R>| #[trigger] call_requires(f, (&c,)),
        forall|c: ExecutionContext<O, R>, d: DO| #[trigger]
            call_ensures(f, (&c,), d) ==> d.ready(),
    ensures
        exists|d: DO| #[trigger]
            call_ensures(f, (old(context),), d) && d.runs(*old(context), r, *final(context)),
{
    let next = f(&*context);
    next.execute(context)
}

/// Execute an operation, and transform its output.
pub fn execute_mapped<O, R, DI: DeviceOp<O, R>, T, F: FnOnce(DI::Output) -> T>(
    op: DI,
    f: F,
    context: &mut ExecutionContext<O, R>,
) -> (r: Result<T, DeviceError>)
    requires
        op.ready(),
        forall|i: DI::Output| #[trigger] call_requires(f, (i,)),
    ensures
        exists|x: Result<DI::Output, DeviceError>| #[trigger]
            op.runs(*old(context), x, *final(context)) && match x {
                Err(e) => r == Err::<T, DeviceError>(e),
                Ok(i) => r is Ok && call_ensures(f, (i,), r->Ok_0),
            },
{
    let input = op.execute(context)?;
    Ok(f(input))
}

/// Execute an operation, and look at its output.
pub fn execute_inspected<O, R, DI: DeviceOp<O, R>, F: FnOnce(&DI::Output)>(
    op: DI,
    f: F,
    context: &mut ExecutionContext<O, R>,
) -> (r: Result<DI::Output, DeviceError>)
    requires
        op.ready(),
        forall|i: DI::Output| #[trigger] call_requires(f, (&i,)),
    ensures
        op.runs(*old(context), r, *final(context)),
        r matches Ok(x) ==> call_ensures(f, (&x,), ()),
{
    let x = op.execute(context)?;
    f(&x);
    Ok(x)
}

/// An operation and what follows from its output, on the same stream.
pub struct AndThen<DI, F> {
    pub op: DI,
    pub closure: F,
}

impl<O, R, DI, DO, F> DeviceOp<O, R> for AndThen<DI, F> where
    DI: DeviceOp<O, R>,
    DO: DeviceOp<O, R>,
    F: FnOnce(DI::Output) -> DO,
 {
    type Output = DO::Output;

    open spec fn ready(&self) -> bool {
        &&& self.op.ready()
        &&& forall|i: DI::Output| #[trigger] call_requires(self.closure, (i,))
        &&& forall|i: DI::Output, d: DO| #[trigger]
            call_ensures(self.closure, (i,), d) ==> d.ready()
    }

    /// Where the first operation fails, that is the outcome; else what follows
    /// from its output is executed on the context that it left.
    open spec fn runs(
        &self,
        before: ExecutionContext<O, R>,
        r: Result<DO::Output, DeviceError>,
        after: ExecutionContext<O, R>,
    ) -> bool {
        exists|x: Result<DI::Output, DeviceError>, c: ExecutionContext<O, R>| #[trigger]
            self.op.runs(before, x, c) && match x {
                Err(e) => r == Err::<DO::Output, DeviceError>(e) && after == c,
                Ok(i) => exists|d: DO| #[trigger]
                    call_ensures(self.closure, (i,), d) && d.runs(c, r, after),
            }
    }

    fn execute(self, context: &mut ExecutionContext<O, R>) -> (r: Result<DO::Output, DeviceError>) {
        execute_and_then(self.op, self.closure, context)
    }
}


/// What follows from the output and the context.
pub struct AndThenWithContext<DI, F> {
    pub op: DI,
    pub closure: F,
}

impl<O, R, DI, DO, F> DeviceOp<O, R> for AndThenWithContext<DI, F> where
    DI: DeviceOp<O, R>,
    DO: DeviceOp<O, R>,
    F: FnOnce(&ExecutionContext<O, R>, DI::Output) -> DO,
 {
    type Output = DO::Output;

    open spec fn ready(&self) -> bool {
        &&& self.op.ready()
        &&& forall|c: ExecutionContext<O, R>, i: DI::Output| #[trigger]
            call_requires(self.closure, (&c, i))
        &&& forall|c: ExecutionContext<O, R>, i: DI::Output, d: DO| #[trigger]
            call_ensures(self.closure, (&c, i), d) ==> d.ready()
    }

    /// As for `AndThen`; the closure sees the context that the first operation
    /// left.
    open spec fn runs(
        &self,
        before: ExecutionContext<O, R>,
        r: Result<DO::Output, DeviceError>,
        after: ExecutionContext<O, R>,
    ) -> bool {
        exists|x: Result<DI::Output, DeviceError>, c: ExecutionContext<O, R>| #[trigger]
            self.op.runs(before, x, c) && match x {
                Err(e) => r == Err::<DO::Output, DeviceError>(e) && after == c,
                Ok(i) => exists|d: DO| #[trigger]
                    call_ensures(self.closure, (&c, i), d) && d.runs(c, r, after),
            }
    }

    fn execute(self, context: &mut ExecutionContext<O, R>) -> (r: Result<DO::Output, DeviceError>) {
        execute_and_then_with_context(self.op, self.closure, context)
    }
}

/// An operation that is made when it is executed.
pub struct Empty<F> {
    pub closure: F,
}

/// An operation that is made when it is executed.
pub fn empty<F>(closure: F) -> (e: Empty<F>)
    ensures
        e.closure == closure,
{
    Empty { closure }
}

impl<O, R, DO, F> DeviceOp<O, R> for Empty<F> where
    DO: DeviceOp<O, R>,
    F: FnOnce() -> DO,
 {
    type Output = DO::Output;

    open spec fn ready(&self) -> bool {
        &&& call_requires(self.closure, ())
        &&& forall|d: DO| #[trigger] call_ensures(self.closure, (), d) ==> d.ready()
    }

    open spec fn runs(
        &self,
        before: ExecutionContext<O, R>,
        r: Result<DO::Output, DeviceError>,
        after: ExecutionContext<O, R>,
    ) -> bool {
        exists|d: DO| #[trigger]
            call_ensures(self.closure, (), d) && d.runs(before, r, after)
    }

    fn execute(self, context: &mut ExecutionContext<O, R>) -> (r: Result<DO::Output, DeviceError>) {
        execute_empty(self.closure, context)
    }
}

/// An operation that is made from the context on which it is executed.
pub struct StreamOperation<F> {
    pub f: F,
}

/// An operation that is made from the context on which it is executed.
pub fn with_context<F>(f: F) -> (s: StreamOperation<F>)
    ensures
        s.f == f,
{
    StreamOperation { f }
}

impl<O, R, DO, F> DeviceOp<O, R> for StreamOperation<F> where
    DO: DeviceOp<O, R>,
    F: FnOnce(&ExecutionContext<O, R>) -> DO,
 {
    type Output = DO::Output;

    open spec fn ready(&self) -> bool {
        &&& forall|c: ExecutionContext<O, R>| #[trigger] call_requires(self.f, (&c,))
        &&& forall|c: ExecutionContext<O, R>, d: DO| #[trigger]
            call_ensures(self.f, (&c,), d) ==> d.ready()
    }

    open spec fn runs(
        &self,
        before: ExecutionContext<O, R>,
        r: Result<DO::Output, DeviceError>,
        after: ExecutionContext<O, R>,
    ) -> bool {
        exists|d: DO| #[trigger]
            call_ensures(self.f, (&before,), d) && d.runs(before, r, after)
    }

    fn execute(self, context: &mut ExecutionContext<O, R>) -> (r: Result<DO::Output, DeviceError>) {
        execute_with_context(self.f, context)
    }
}

/// An operation whose output is transformed without new device work.
pub struct Mapped<DI, F> {
    pub op: DI,
    pub f: F,
}

impl<O, R, DI, T, F> DeviceOp<O, R> for Mapped<DI, F> where
    DI: DeviceOp<O, R>,
    F: FnOnce(DI::Output) -> T,
 {
    type Output = T;

    open spec fn ready(&self) -> bool {
        &&& self.op.ready()
        &&& forall|i: DI::Output| #[trigger] call_requires(self.f, (i,))
    }

    /// Fails as the operation fails; else hands out what the function makes of
    /// its output. The function does not touch the context.
    open spec fn runs(
        &self,
        before: ExecutionContext<O, R>,
        r: Result<T, DeviceError>,
        after: ExecutionContext<O, R>,
    ) -> bool {
        exists|x: Result<DI::Output, DeviceError>| #[trigger]
            self.op.runs(before, x, after) && match x {
                Err(e) => r == Err::<T, DeviceError>(e),
                Ok(i) => r is Ok && call_ensures(self.f, (i,), r->Ok_0),
            }
    }

    fn execute(self, context: &mut ExecutionContext<O, R>) -> (r: Result<T, DeviceError>) {
        execute_mapped(self.op, self.f, context)
    }
}

/// An operation whose output is looked at and handed on.
pub struct Inspected<DI, F> {
    pub op: DI,
    pub f: F,
}

impl<O, R, DI, F> DeviceOp<O, R> for Inspected<DI, F> where
    DI: DeviceOp<O, R>,
    F: FnOnce(&DI::Output),
 {
    type Output = DI::Output;

    open spec fn ready(&self) -> bool {
        &&& self.op.ready()
        &&& forall|i: DI::Output| #[trigger] call_requires(self.f, (&i,))
    }

    /// What the operation itself does; its output has been looked at.
    open spec fn runs(
        &self,
        before: ExecutionContext<O, R>,
        r: Result<DI::Output, DeviceError>,
        after: ExecutionContext<O, R>,
    ) -> bool {
        &&& self.op.runs(before, r, after)
        &&& r matches Ok(x) ==> call_ensures(self.f, (&x,), ())
    }

    fn execute(self, context: &mut ExecutionContext<O, R>) -> (r: Result<DI::Output, DeviceError>) {
        execute_inspected(self.op, self.f, context)
    }
}

/// Chain what follows from an operation's output.
pub fn chain<DI, F>(op: DI, f: F) -> (a: AndThen<DI, F>)
    ensures
        a.op == op,
        a.closure == f,
{
    AndThen { op, closure: f }
}

/// Chain what follows from an operation's output and the context.
pub fn and_then_with_context<DI, F>(op: DI, f: F) -> (a: AndThenWithContext<DI, F>)
    ensures
        a.op == op,
        a.closure == f,
{
    AndThenWithContext { op, closure: f }
}

/// Transform an operation's output.
pub fn map_output<DI, F>(op: DI, f: F) -> (m: Mapped<DI, F>)
    ensures
        m.op == op,
        m.f == f,
{
    Mapped { op, f }
}

/// Look at an operation's output.
pub fn inspect<DI, F>(op: DI, f: F) -> (m: Inspected<DI, F>)
    ensures
        m.op == op,
        m.f == f,
{
    Inspected { op, f }
}

/// An operation of which only the output's type is known.
pub trait ErasedOp<O, R, T> {
    /// The operation can be executed.
    spec fn erased_ready(&self) -> bool;

    /// From a context, an execution may end with this outcome and leave the
    /// context like this.
    spec fn erased_runs(
        &self,
        before: ExecutionContext<O, R>,
        r: Result<T, DeviceError>,
        after: ExecutionContext<O, R>,
    ) -> bool;

    /// Enqueue the operation.
    fn execute_erased(self: Box<Self>, context: &mut ExecutionContext<O, R>) -> (r: Result<
        T,
        DeviceError,
    >)
        requires
            self.erased_ready(),
        ensures
            self.erased_runs(*old(context), r, *final(context)),
    ;
}

/// An operation whose type is about to be forgotten.
pub struct Known<DO>(pub DO);

impl<O, R, DO: DeviceOp<O, R>> ErasedOp<O, R, DO::Output> for Known<DO> {
    open spec fn erased_ready(&self) -> bool {
        self.0.ready()
    }

    open spec fn erased_runs(
        &self,
        before: ExecutionContext<O, R>,
        r: Result<DO::Output, DeviceError>,
        after: ExecutionContext<O, R>,
    ) -> bool {
        self.0.runs(before, r, after)
    }

    fn execute_erased(self: Box<Self>, context: &mut ExecutionContext<O, R>) -> (r: Result<
        DO::Output,
        DeviceError,
    >) {
        let op: Known<DO> = *self;
        op.0.execute(context)
    }
}

/// A place for a value.
pub struct Slot<X> {
    pub held: X,
}

/// An operation on the heap of which only the output's type is known, so that
/// operations of different types can stand in one list.
#[verifier::reject_recursive_types(O)]
#[verifier::reject_recursive_types(R)]
#[verifier::reject_recursive_types(T)]
pub struct BoxedDeviceOp<O, R, T> {
    pub inner: Slot<Box<dyn ErasedOp<O, R, T>>>,
}

impl<O, R, T> DeviceOp<O, R> for BoxedDeviceOp<O, R, T> {
    type Output = T;

    open spec fn ready(&self) -> bool {
        self.inner.held.erased_ready()
    }

    open spec fn runs(
        &self,
        before: ExecutionContext<O, R>,
        r: Result<T, DeviceError>,
        after: ExecutionContext<O, R>,
    ) -> bool {
        self.inner.held.erased_runs(before, r, after)
    }

    fn execute(self, context: &mut ExecutionContext<O, R>) -> (r: Result<T, DeviceError>) {
        self.inner.held.execute_erased(context)
    }
}

/// Two operations can be executed in the same cases, and run in the same ways.
pub open spec fn same_op<O, R, A: DeviceOp<O, R>, B: DeviceOp<O, R, Output = A::Output>>(
    a: A,
    b: B,
) -> bool {
    &&& a.ready() == b.ready()
    &&& forall|
        before: ExecutionContext<O, R>,
        r: Result<A::Output, DeviceError>,
        after: ExecutionContext<O, R>,
    | #[trigger]
        a.runs(before, r, after) == b.runs(before, r, after)
}

/// Move an operation to the heap, and forget its type.
pub fn boxed<O, R, DO: DeviceOp<O, R> + 'static>(op: DO) -> (b: BoxedDeviceOp<O, R, DO::Output>)
    ensures
        same_op(b, op),
{
    let held: Box<dyn ErasedOp<O, R, DO::Output>> = Box::new(Known(op));
    let inner = Slot { held };
    assert(inner.held.erased_ready() == op.ready());
    assert forall|
        before: ExecutionContext<O, R>,
        r: Result<DO::Output, DeviceError>,
        after: ExecutionContext<O, R>,
    | #[trigger]
        inner.held.erased_runs(before, r, after) == op.runs(before, r, after) by {}
    let b = BoxedDeviceOp { inner };
    assert(b.inner == inner);
    assert(b.ready() == op.ready());
    b
}

/// A list of operations that are executed one after the other. They have the same type
/// of output.
#[verifier::reject_recursive_types(O)]
#[verifier::reject_recursive_types(R)]
#[verifier::reject_recursive_types(T)]
pub struct DeviceOpVec<O, R, T> {
    pub ops: Vec<BoxedDeviceOp<O, R, T>>,
}

impl<O, R, T> DeviceOpVec<O, R, T> {
    /// The list without operations.
    pub fn empty() -> (v: DeviceOpVec<O, R, T>)
        ensures
            v.ops@ == Seq::<BoxedDeviceOp<O, R, T>>::empty(),
    {
        DeviceOpVec { ops: Vec::new() }
    }

    /// The list without operations, with room for some.
    pub fn with_capacity(capacity: usize) -> (v: DeviceOpVec<O, R, T>)
        ensures
            v.ops@ == Seq::<BoxedDeviceOp<O, R, T>>::empty(),
    {
        DeviceOpVec { ops: Vec::with_capacity(capacity) }
    }

    /// A list of operations.
    pub fn new(ops: Vec<BoxedDeviceOp<O, R, T>>) -> (v: DeviceOpVec<O, R, T>)
        ensures
            v.ops == ops,
    {
        DeviceOpVec { ops }
    }

    /// Add an operation.
    pub fn push<DO: DeviceOp<O, R, Output = T> + 'static>(&mut self, op: DO)
        ensures
            final(self).ops@.len() == old(self).ops@.len() + 1,
            final(self).ops@.drop_last() == old(self).ops@,
            same_op(final(self).ops@.last(), op),
    {
        self.ops.push(boxed(op));
        assert(self.ops@.drop_last() =~= old(self).ops@);
    }

    /// Take an operation out; those after it move up.
    pub fn remove(&mut self, index: usize) -> (op: BoxedDeviceOp<O, R, T>)
        requires
            index < old(self).ops@.len(),
        ensures
            op == old(self).ops@[index as int],
            final(self).ops@ == old(self).ops@.remove(index as int),
    {
        self.ops.remove(index)
    }

    /// The last operation.
    pub fn last(&self) -> (r: Option<&BoxedDeviceOp<O, R, T>>)
        ensures
            match r {
                Some(op) => self.ops@.len() > 0 && *op == self.ops@.last(),
                None => self.ops@.len() == 0,
            },
    {
        if self.ops.len() == 0 {
            None
        } else {
            Some(&self.ops[self.ops.len() - 1])
        }
    }
}

/// The first `outs.len()` operations may succeed, one after the other, with
/// these outputs.
pub open spec fn ran<O, R, T>(
    ops: Seq<BoxedDeviceOp<O, R, T>>,
    before: ExecutionContext<O, R>,
    outs: Seq<T>,
    after: ExecutionContext<O, R>,
) -> bool
    decreases outs.len(),
{
    if outs.len() == 0 {
        after == before
    } else {
        exists|c: ExecutionContext<O, R>|
            ran(ops, before, outs.drop_last(), c) && #[trigger] ops[outs.len() - 1].runs(
                c,
                Ok(outs.last()),
                after,
            )
    }
}

impl<O, R, T> DeviceOp<O, R> for DeviceOpVec<O, R, T> {
    type Output = Vec<T>;

    open spec fn ready(&self) -> bool {
        forall|i: int| 0 <= i < self.ops@.len() ==> (#[trigger] self.ops@[i]).ready()
    }

    /// The outputs in the order of the operations, or the first error.
    open spec fn runs(
        &self,
        before: ExecutionContext<O, R>,
        r: Result<Vec<T>, DeviceError>,
        after: ExecutionContext<O, R>,
    ) -> bool {
        match r {
            Ok(outs) => outs@.len() == self.ops@.len() && ran(self.ops@, before, outs@, after),
            Err(e) => exists|outs: Seq<T>, c: ExecutionContext<O, R>| #[trigger]
                ran(self.ops@, before, outs, c) && outs.len() < self.ops@.len()
                    && self.ops@[outs.len() as int].runs(c, Err(e), after),
        }
    }

    fn execute(self, context: &mut ExecutionContext<O, R>) -> (r: Result<Vec<T>, DeviceError>) {
        let ghost ops = self.ops@;
        let ghost before = *context;
        let mut results: Vec<T> = Vec::with_capacity(self.ops.len());
        for op in it: self.ops
            invariant
                ops == self.ops@,
                it.seq() == ops,
                results@.len() == it.index(),
                forall|i: int| 0 <= i < ops.len() ==> (#[trigger] ops[i]).ready(),
                ran(ops, before, results@, *context),
                before == *old(context),
        {
            let ghost c = *context;
            let ghost outs = results@;
            assert(op == ops[outs.len() as int]);
            let x = op.execute(context);
            match x {
                Err(e) => {
                    assert(ran(ops, before, outs, c));
                    return Err(e);
                },
                Ok(v) => {
                    results.push(v);
                    assert(results@.drop_last() =~= outs);
                    assert(ran(ops, before, results@.drop_last(), c));
                    assert(ops[results@.len() - 1].runs(c, Ok(results@.last()), *context));
                },
            }
        }
        Ok(results)
    }
}

/// Execute an operation on a context that was made for it, wait for the
/// stream, and hand out the output. `wait` synchronizes the stream; the lock is
/// held meanwhile, and free afterwards.
pub fn sync_on<O, R, DO: DeviceOp<O, R>, F: FnOnce() -> Result<(), u32>>(
    op: DO,
    lock: &mut ExecutionLock,
    ctx: &mut ExecutionContext<O, R>,
    wait: F,
) -> (r: Result<DO::Output, DeviceError>)
    requires
        !old(lock).held ==> op.ready() && wait.requires(()),
    ensures
        old(lock).held ==> {
            &&& r is Err
            &&& r->Err_0@ == lock::reentrant()
            &&& *final(ctx) == *old(ctx)
            &&& final(lock).held
        },
        !old(lock).held ==> {
            &&& !final(lock).held
            &&& exists|
                x: Result<DO::Output, DeviceError>,
                c: ExecutionContext<O, R>,
                w: Result<(), u32>,
            |
                {
                    &&& #[trigger] op.runs(*old(ctx), x, c)
                    &&& #[trigger] wait.ensures((), w)
                    &&& match w {
                        Err(code) => r is Err && r->Err_0@ == DeviceErrorV::Driver(code)
                            && *final(ctx) == c,
                        Ok(()) => r == x && final(ctx).same_place(&c)
                            && final(ctx).submission.owners.held() is None
                            && final(ctx).submission.recorded == c.submission.recorded,
                    }
                }
        },
{
    lock.acquire_execution_lock()?;
    let res = op.execute(ctx);
    let synced = wait();
    lock.release();
    match synced {
        Err(code) => Err(DeviceError::Driver(code)),
        Ok(()) => {
            ctx.complete();
            res
        },
    }
}

/// Execute an operation on a context that was made for it, without waiting:
/// the caller answers for the resources.
pub fn async_on<O, R, DO: DeviceOp<O, R>>(op: DO, ctx: &mut ExecutionContext<O, R>) -> (r: Result<
    DO::Output,
    DeviceError,
>)
    requires
        op.ready(),
    ensures
        final(ctx).submission.owners.held() is None,
        exists|c: ExecutionContext<O, R>| #[trigger]
            op.runs(*old(ctx), r, c) && final(ctx).same_place(&c)
                && final(ctx).submission.recorded == c.submission.recorded,
{
    let result = op.execute(ctx);
    ctx.complete();
    result
}

} // verus!
