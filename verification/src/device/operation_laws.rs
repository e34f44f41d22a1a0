//! How operations that are put together run.
use vstd::prelude::*;
use crate::device::context::ExecutionContext;
use crate::device::error::{DeviceError, DeviceErrorV};
use crate::device::future::{DeviceFuture, DeviceFutureState, PollAction, StreamHealth};
use crate::device::future;
use crate::device::operation::{
    AndThen,
    BoxedDeviceOp,
    DeviceOp,
    DeviceOpVec,
    Inspected,
    Mapped,
    Value,
};
use crate::device::operation;
use crate::device::submission;
use crate::device::unzip::{First, Last, Nested, Parts};
use crate::device::zip::{Zip, Zip3, Zip4, Zip5, Zip6};

verus! {

/// One operation succeeds with an output, and another goes on from the context that it
/// leaves.
pub open spec fn succeeds<O, R, A: DeviceOp<O, R>>(
    a: A,
    before: ExecutionContext<O, R>,
    out: A::Output,
    after: ExecutionContext<O, R>,
) -> bool {
    a.runs(before, Ok(out), after)
}

/// An operation fails.
pub open spec fn fails<O, R, A: DeviceOp<O, R>>(
    a: A,
    before: ExecutionContext<O, R>,
    e: DeviceError,
    after: ExecutionContext<O, R>,
) -> bool {
    a.runs(before, Err(e), after)
}

/// A value is handed out, and the context is left alone.
pub proof fn lemma_value<O, R, T>(
    v: Value<T>,
    before: ExecutionContext<O, R>,
    r: Result<T, DeviceError>,
    after: ExecutionContext<O, R>,
)
    ensures
        DeviceOp::<O, R>::runs(&v, before, r, after) <==> r == Ok::<T, DeviceError>(v.0) && after
            == before,
{
}

/// What follows an operation runs on the context that the operation left, where the
/// operation succeeded, and is made from its output; where the operation failed, nothing
/// follows and its error is the outcome.
pub proof fn lemma_chain<O, R, DI: DeviceOp<O, R>, DO: DeviceOp<O, R>, F: FnOnce(DI::Output) -> DO>(
    op: AndThen<DI, F>,
    before: ExecutionContext<O, R>,
    r: Result<DO::Output, DeviceError>,
    after: ExecutionContext<O, R>,
)
    requires
        DeviceOp::<O, R>::runs(&op, before, r, after),
    ensures
        (r is Err && fails(op.op, before, r->Err_0, after)) || exists|
            i: DI::Output,
            c: ExecutionContext<O, R>,
            d: DO,
        |
            succeeds(op.op, before, i, c) && #[trigger] call_ensures(op.closure, (i,), d)
                && #[trigger] d.runs(c, r, after),
{
    let (x, c) = choose|x: Result<DI::Output, DeviceError>, c: ExecutionContext<O, R>| #[trigger]
        op.op.runs(before, x, c) && match x {
            Err(e) => r == Err::<DO::Output, DeviceError>(e) && after == c,
            Ok(i) => exists|d: DO| #[trigger]
                call_ensures(op.closure, (i,), d) && d.runs(c, r, after),
        };
    match x {
        Err(_) => {},
        Ok(i) => {
            let d = choose|d: DO| #[trigger] call_ensures(op.closure, (i,), d) && d.runs(c, r, after);
            assert(succeeds(op.op, before, i, c));
            assert(call_ensures(op.closure, (i,), d) && d.runs(c, r, after));
        },
    }
}

/// Of two operations side by side the first runs first; where it fails the second does
/// not run.
pub proof fn lemma_pair<O, R, A: DeviceOp<O, R>, B: DeviceOp<O, R>>(
    a: A,
    b: B,
    before: ExecutionContext<O, R>,
    r: Result<(A::Output, B::Output), DeviceError>,
    after: ExecutionContext<O, R>,
)
    requires
        DeviceOp::<O, R>::runs(&Zip { a, b }, before, r, after),
    ensures
        match r {
            Ok((u, v)) => exists|c: ExecutionContext<O, R>| #[trigger]
                succeeds(a, before, u, c) && succeeds(b, c, v, after),
            Err(e) => fails(a, before, e, after) || exists|u: A::Output, c: ExecutionContext<O, R>| #[trigger]
                succeeds(a, before, u, c) && fails(b, c, e, after),
        },
{
    let op = Zip { a, b };
    let (x, c) = choose|x: Result<A::Output, DeviceError>, c: ExecutionContext<O, R>| #[trigger]
        op.a.runs(before, x, c) && match x {
            Err(e) => r == Err::<(A::Output, B::Output), DeviceError>(e) && after == c,
            Ok(u) => exists|y: Result<B::Output, DeviceError>| #[trigger]
                op.b.runs(c, y, after) && r == (match y {
                    Err(e) => Err::<(A::Output, B::Output), DeviceError>(e),
                    Ok(v) => Ok((u, v)),
                }),
        };
    match x {
        Err(e) => {
            assert(fails(a, before, e, after));
        },
        Ok(u) => {
            assert(succeeds(a, before, u, c));
            let y = choose|y: Result<B::Output, DeviceError>| #[trigger]
                op.b.runs(c, y, after) && r == (match y {
                    Err(e) => Err::<(A::Output, B::Output), DeviceError>(e),
                    Ok(v) => Ok((u, v)),
                });
            match y {
                Ok(v) => {
                    assert(succeeds(b, c, v, after));
                    assert(r->Ok_0.0 == u && r->Ok_0.1 == v);
                },
                Err(e) => {
                    assert(fails(b, c, e, after));
                },
            }
        },
    }
}

/// Of three operations side by side the first runs first, and the others as if they were
/// alone; each output stands in its place.
pub proof fn lemma_triple<O, R, A: DeviceOp<O, R>, B: DeviceOp<O, R>, C: DeviceOp<O, R>>(
    op: Zip3<A, B, C>,
    before: ExecutionContext<O, R>,
    r: Result<(A::Output, B::Output, C::Output), DeviceError>,
    after: ExecutionContext<O, R>,
)
    requires
        DeviceOp::<O, R>::runs(&op, before, r, after),
    ensures
        match r {
            Ok((u, v, w)) => exists|c: ExecutionContext<O, R>| #[trigger]
                succeeds(op.a, before, u, c) && succeeds(Zip { a: op.b, b: op.c }, c, (v, w), after),
            Err(e) => fails(op.a, before, e, after) || exists|
                u: A::Output,
                c: ExecutionContext<O, R>,
            | #[trigger]
                succeeds(op.a, before, u, c) && fails(Zip { a: op.b, b: op.c }, c, e, after),
        },
{
    let rest = Zip { a: op.b, b: op.c };
    let (x, c) = choose|x: Result<A::Output, DeviceError>, c: ExecutionContext<O, R>| #[trigger]
        op.a.runs(before, x, c) && match x {
            Err(e) => r == Err::<(A::Output, B::Output, C::Output), DeviceError>(e) && after == c,
            Ok(u) => exists|y: Result<(B::Output, C::Output), DeviceError>| #[trigger]
                rest.runs(c, y, after) && r == (match y {
                    Err(e) => Err::<(A::Output, B::Output, C::Output), DeviceError>(e),
                    Ok(v) => Ok((u, v.0, v.1)),
                }),
        };
    match x {
        Err(e) => {
            assert(fails(op.a, before, e, after));
        },
        Ok(u) => {
            assert(succeeds(op.a, before, u, c));
            let y = choose|y: Result<(B::Output, C::Output), DeviceError>| #[trigger]
                rest.runs(c, y, after) && r == (match y {
                    Err(e) => Err::<(A::Output, B::Output, C::Output), DeviceError>(e),
                    Ok(v) => Ok((u, v.0, v.1)),
                });
            match y {
                Ok(v) => {
                    assert((v.0, v.1) == v);
                    assert(succeeds(rest, c, (v.0, v.1), after));
                    assert(r->Ok_0.0 == u && r->Ok_0.1 == v.0 && r->Ok_0.2 == v.1);
                    assert(succeeds(op.a, before, r->Ok_0.0, c));
                },
                Err(e) => {
                    assert(fails(rest, c, e, after));
                },
            }
        },
    }
}

/// Of four operations side by side the first runs first, and the others as if they were
/// alone; each output stands in its place.
pub proof fn lemma_side_by_side_4<O, R, A: DeviceOp<O, R>, B: DeviceOp<O, R>, C: DeviceOp<O, R>, D: DeviceOp<O, R>>(
    op: Zip4<A, B, C, D>,
    before: ExecutionContext<O, R>,
    r: Result<(A::Output, B::Output, C::Output, D::Output), DeviceError>,
    after: ExecutionContext<O, R>,
)
    requires
        DeviceOp::<O, R>::runs(&op, before, r, after),
    ensures
        match r {
            Ok((u0, u1, u2, u3)) => exists|c: ExecutionContext<O, R>| #[trigger]
                succeeds(op.a, before, u0, c) && succeeds(
                    Zip3 { a: op.b, b: op.c, c: op.d },
                    c,
                    (u1, u2, u3),
                    after,
                ),
            Err(e) => fails(op.a, before, e, after) || exists|
                u: A::Output,
                c: ExecutionContext<O, R>,
            | #[trigger]
                succeeds(op.a, before, u, c) && fails(
                    Zip3 { a: op.b, b: op.c, c: op.d },
                    c,
                    e,
                    after,
                ),
        },
{
    let rest = Zip3 { a: op.b, b: op.c, c: op.d };
    let (x, c) = choose|x: Result<A::Output, DeviceError>, c: ExecutionContext<O, R>| #[trigger]
        op.a.runs(before, x, c) && match x {
            Err(e) => r == Err::<(A::Output, B::Output, C::Output, D::Output), DeviceError>(e) && after == c,
            Ok(u) => exists|y: Result<(B::Output, C::Output, D::Output), DeviceError>| #[trigger]
                rest.runs(c, y, after) && r == (match y {
                    Err(e) => Err::<(A::Output, B::Output, C::Output, D::Output), DeviceError>(e),
                    Ok(v) => Ok((u, v.0, v.1, v.2)),
                }),
        };
    match x {
        Err(e) => {
            assert(fails(op.a, before, e, after));
        },
        Ok(u) => {
            assert(succeeds(op.a, before, u, c));
            let y = choose|y: Result<(B::Output, C::Output, D::Output), DeviceError>| #[trigger]
                rest.runs(c, y, after) && r == (match y {
                    Err(e) => Err::<(A::Output, B::Output, C::Output, D::Output), DeviceError>(e),
                    Ok(v) => Ok((u, v.0, v.1, v.2)),
                });
            match y {
                Ok(v) => {
                    assert((v.0, v.1, v.2) == v);
                    assert(succeeds(rest, c, (v.0, v.1, v.2), after));
                    assert(succeeds(op.a, before, r->Ok_0.0, c));
                },
                Err(e) => {
                    assert(fails(rest, c, e, after));
                },
            }
        },
    }
}

/// Of five operations side by side the first runs first, and the others as if they were
/// alone; each output stands in its place.
pub proof fn lemma_side_by_side_5<O, R, A: DeviceOp<O, R>, B: DeviceOp<O, R>, C: DeviceOp<O, R>, D: DeviceOp<O, R>, E: DeviceOp<O, R>>(
    op: Zip5<A, B, C, D, E>,
    before: ExecutionContext<O, R>,
    r: Result<(A::Output, B::Output, C::Output, D::Output, E::Output), DeviceError>,
    after: ExecutionContext<O, R>,
)
    requires
        DeviceOp::<O, R>::runs(&op, before, r, after),
    ensures
        match r {
            Ok((u0, u1, u2, u3, u4)) => exists|c: ExecutionContext<O, R>| #[trigger]
                succeeds(op.a, before, u0, c) && succeeds(
                    Zip4 { a: op.b, b: op.c, c: op.d, d: op.e },
                    c,
                    (u1, u2, u3, u4),
                    after,
                ),
            Err(e) => fails(op.a, before, e, after) || exists|
                u: A::Output,
                c: ExecutionContext<O, R>,
            | #[trigger]
                succeeds(op.a, before, u, c) && fails(
                    Zip4 { a: op.b, b: op.c, c: op.d, d: op.e },
                    c,
                    e,
                    after,
                ),
        },
{
    let rest = Zip4 { a: op.b, b: op.c, c: op.d, d: op.e };
    let (x, c) = choose|x: Result<A::Output, DeviceError>, c: ExecutionContext<O, R>| #[trigger]
        op.a.runs(before, x, c) && match x {
            Err(e) => r == Err::<(A::Output, B::Output, C::Output, D::Output, E::Output), DeviceError>(e) && after == c,
            Ok(u) => exists|y: Result<(B::Output, C::Output, D::Output, E::Output), DeviceError>| #[trigger]
                rest.runs(c, y, after) && r == (match y {
                    Err(e) => Err::<(A::Output, B::Output, C::Output, D::Output, E::Output), DeviceError>(e),
                    Ok(v) => Ok((u, v.0, v.1, v.2, v.3)),
                }),
        };
    match x {
        Err(e) => {
            assert(fails(op.a, before, e, after));
        },
        Ok(u) => {
            assert(succeeds(op.a, before, u, c));
            let y = choose|y: Result<(B::Output, C::Output, D::Output, E::Output), DeviceError>| #[trigger]
                rest.runs(c, y, after) && r == (match y {
                    Err(e) => Err::<(A::Output, B::Output, C::Output, D::Output, E::Output), DeviceError>(e),
                    Ok(v) => Ok((u, v.0, v.1, v.2, v.3)),
                });
            match y {
                Ok(v) => {
                    assert((v.0, v.1, v.2, v.3) == v);
                    assert(succeeds(rest, c, (v.0, v.1, v.2, v.3), after));
                    assert(succeeds(op.a, before, r->Ok_0.0, c));
                },
                Err(e) => {
                    assert(fails(rest, c, e, after));
                },
            }
        },
    }
}

/// Of six operations side by side the first runs first, and the others as if they were
/// alone; each output stands in its place.
pub proof fn lemma_side_by_side_6<O, R, A: DeviceOp<O, R>, B: DeviceOp<O, R>, C: DeviceOp<O, R>, D: DeviceOp<O, R>, E: DeviceOp<O, R>, F: DeviceOp<O, R>>(
    op: Zip6<A, B, C, D, E, F>,
    before: ExecutionContext<O, R>,
    r: Result<(A::Output, B::Output, C::Output, D::Output, E::Output, F::Output), DeviceError>,
    after: ExecutionContext<O, R>,
)
    requires
        DeviceOp::<O, R>::runs(&op, before, r, after),
    ensures
        match r {
            Ok((u0, u1, u2, u3, u4, u5)) => exists|c: ExecutionContext<O, R>| #[trigger]
                succeeds(op.a, before, u0, c) && succeeds(
                    Zip5 { a: op.b, b: op.c, c: op.d, d: op.e, e: op.f },
                    c,
                    (u1, u2, u3, u4, u5),
                    after,
                ),
            Err(e) => fails(op.a, before, e, after) || exists|
                u: A::Output,
                c: ExecutionContext<O, R>,
            | #[trigger]
                succeeds(op.a, before, u, c) && fails(
                    Zip5 { a: op.b, b: op.c, c: op.d, d: op.e, e: op.f },
                    c,
                    e,
                    after,
                ),
        },
{
    let rest = Zip5 { a: op.b, b: op.c, c: op.d, d: op.e, e: op.f };
    let (x, c) = choose|x: Result<A::Output, DeviceError>, c: ExecutionContext<O, R>| #[trigger]
        op.a.runs(before, x, c) && match x {
            Err(e) => r == Err::<(A::Output, B::Output, C::Output, D::Output, E::Output, F::Output), DeviceError>(e) && after == c,
            Ok(u) => exists|y: Result<(B::Output, C::Output, D::Output, E::Output, F::Output), DeviceError>| #[trigger]
                rest.runs(c, y, after) && r == (match y {
                    Err(e) => Err::<(A::Output, B::Output, C::Output, D::Output, E::Output, F::Output), DeviceError>(e),
                    Ok(v) => Ok((u, v.0, v.1, v.2, v.3, v.4)),
                }),
        };
    match x {
        Err(e) => {
            assert(fails(op.a, before, e, after));
        },
        Ok(u) => {
            assert(succeeds(op.a, before, u, c));
            let y = choose|y: Result<(B::Output, C::Output, D::Output, E::Output, F::Output), DeviceError>| #[trigger]
                rest.runs(c, y, after) && r == (match y {
                    Err(e) => Err::<(A::Output, B::Output, C::Output, D::Output, E::Output, F::Output), DeviceError>(e),
                    Ok(v) => Ok((u, v.0, v.1, v.2, v.3, v.4)),
                });
            match y {
                Ok(v) => {
                    assert((v.0, v.1, v.2, v.3, v.4) == v);
                    assert(succeeds(rest, c, (v.0, v.1, v.2, v.3, v.4), after));
                    assert(succeeds(op.a, before, r->Ok_0.0, c));
                },
                Err(e) => {
                    assert(fails(rest, c, e, after));
                },
            }
        },
    }
}

/// What transforms an output, or looks at it, does so with the output of the operation,
/// and leaves failures and the context as they are.
pub proof fn lemma_transformed<O, R, DI: DeviceOp<O, R>, T, F: FnOnce(DI::Output) -> T, G: FnOnce(&DI::Output)>(
    m: Mapped<DI, F>,
    g: Inspected<DI, G>,
    before: ExecutionContext<O, R>,
    r: Result<T, DeviceError>,
    q: Result<DI::Output, DeviceError>,
    after: ExecutionContext<O, R>,
)
    ensures
        DeviceOp::<O, R>::runs(&m, before, r, after) ==> match r {
            Ok(t) => exists|i: DI::Output| #[trigger]
                succeeds(m.op, before, i, after) && call_ensures(m.f, (i,), t),
            Err(e) => fails(m.op, before, e, after),
        },
        DeviceOp::<O, R>::runs(&g, before, q, after) ==> g.op.runs(before, q, after) && (
        q matches Ok(x) ==> call_ensures(g.f, (&x,), ())),
{
    if DeviceOp::<O, R>::runs(&m, before, r, after) {
        let x = choose|x: Result<DI::Output, DeviceError>| #[trigger]
            m.op.runs(before, x, after) && match x {
                Err(e) => r == Err::<T, DeviceError>(e),
                Ok(i) => r is Ok && call_ensures(m.f, (i,), r->Ok_0),
            };
        match x {
            Ok(i) => {
                assert(succeeds(m.op, before, i, after));
            },
            Err(e) => {
                assert(fails(m.op, before, e, after));
            },
        }
    }
}

/// The first result of an operation is the first of its results, the last the last, and
/// nested all of them; failures and the context are left as they are.
pub proof fn lemma_taken_apart<O, R, DI>(
    op: DI,
    before: ExecutionContext<O, R>,
    first: Result<<DI::Output as Parts>::First, DeviceError>,
    last: Result<<DI::Output as Parts>::Last, DeviceError>,
    nested: Result<<DI::Output as Parts>::Nested, DeviceError>,
    after: ExecutionContext<O, R>,
) where DI: DeviceOp<O, R>, DI::Output: Parts
    ensures
        DeviceOp::<O, R>::runs(&First(op), before, first, after) ==> match first {
            Ok(x) => exists|t: DI::Output| #[trigger]
                succeeds(op, before, t, after) && x == t.first_of(),
            Err(e) => fails(op, before, e, after),
        },
        DeviceOp::<O, R>::runs(&Last(op), before, last, after) ==> match last {
            Ok(x) => exists|t: DI::Output| #[trigger]
                succeeds(op, before, t, after) && x == t.last_of(),
            Err(e) => fails(op, before, e, after),
        },
        DeviceOp::<O, R>::runs(&Nested(op), before, nested, after) ==> match nested {
            Ok(x) => exists|t: DI::Output| #[trigger]
                succeeds(op, before, t, after) && x == t.nested_of(),
            Err(e) => fails(op, before, e, after),
        },
{
    if DeviceOp::<O, R>::runs(&First(op), before, first, after) {
        let x = choose|x: Result<DI::Output, DeviceError>| #[trigger]
            op.runs(before, x, after) && first == (match x {
                Err(e) => Err::<<DI::Output as Parts>::First, DeviceError>(e),
                Ok(t) => Ok(t.first_of()),
            });
        match x {
            Ok(t) => assert(succeeds(op, before, t, after)),
            Err(e) => assert(fails(op, before, e, after)),
        }
    }
    if DeviceOp::<O, R>::runs(&Last(op), before, last, after) {
        let x = choose|x: Result<DI::Output, DeviceError>| #[trigger]
            op.runs(before, x, after) && last == (match x {
                Err(e) => Err::<<DI::Output as Parts>::Last, DeviceError>(e),
                Ok(t) => Ok(t.last_of()),
            });
        match x {
            Ok(t) => assert(succeeds(op, before, t, after)),
            Err(e) => assert(fails(op, before, e, after)),
        }
    }
    if DeviceOp::<O, R>::runs(&Nested(op), before, nested, after) {
        let x = choose|x: Result<DI::Output, DeviceError>| #[trigger]
            op.runs(before, x, after) && nested == (match x {
                Err(e) => Err::<<DI::Output as Parts>::Nested, DeviceError>(e),
                Ok(t) => Ok(t.nested_of()),
            });
        match x {
            Ok(t) => assert(succeeds(op, before, t, after)),
            Err(e) => assert(fails(op, before, e, after)),
        }
    }
}

/// Operations of a list run one after the other: the first so many have run where all but
/// the last of them have, and the last has run from where they ended.
pub proof fn lemma_list<O, R, T>(
    ops: Seq<BoxedDeviceOp<O, R, T>>,
    before: ExecutionContext<O, R>,
    outs: Seq<T>,
    out: T,
    after: ExecutionContext<O, R>,
)
    ensures
        operation::ran(ops, before, Seq::<T>::empty(), after) <==> after == before,
        operation::ran(ops, before, outs.push(out), after) <==> exists|c: ExecutionContext<O, R>|
            operation::ran(ops, before, outs, c) && #[trigger] ops[outs.len() as int].runs(
                c,
                Ok(out),
                after,
            ),
{
    assert(outs.push(out).drop_last() =~= outs);
    let n = outs.push(out).len();
    if operation::ran(ops, before, outs.push(out), after) {
        let c = choose|c: ExecutionContext<O, R>|
            operation::ran(ops, before, outs.push(out).drop_last(), c) && #[trigger] ops[n
                - 1].runs(c, Ok(outs.push(out).last()), after);
        assert(ops[outs.len() as int].runs(c, Ok(out), after));
    }
    if exists|c: ExecutionContext<O, R>|
        operation::ran(ops, before, outs, c) && #[trigger] ops[outs.len() as int].runs(
            c,
            Ok(out),
            after,
        ) {
        let c = choose|c: ExecutionContext<O, R>|
            operation::ran(ops, before, outs, c) && #[trigger] ops[outs.len() as int].runs(
                c,
                Ok(out),
                after,
            );
        assert(ops[n - 1].runs(c, Ok(outs.push(out).last()), after));
    }
}

/// A list of operations gives the outputs in order, or the error of the first that fails;
/// those behind it do not run.
pub proof fn lemma_list_outcome<O, R, T>(
    v: DeviceOpVec<O, R, T>,
    before: ExecutionContext<O, R>,
    r: Result<Vec<T>, DeviceError>,
    after: ExecutionContext<O, R>,
)
    requires
        DeviceOp::<O, R>::runs(&v, before, r, after),
    ensures
        match r {
            Ok(outs) => outs@.len() == v.ops@.len() && operation::ran(v.ops@, before, outs@, after),
            Err(e) => exists|outs: Seq<T>, c: ExecutionContext<O, R>| #[trigger]
                operation::ran(v.ops@, before, outs, c) && outs.len() < v.ops@.len()
                    && v.ops@[outs.len() as int].runs(c, Err(e), after),
        },
{
}

/// The first and the last of several results are those at the ends, and nested they keep
/// their order.
pub proof fn lemma_parts<T0, T1, T2, T3, T4, T5>(a: T0, b: T1, c: T2, d: T3, e: T4, f: T5)
    ensures
        (a,).first_of() == a,
        (a, b).first_of() == a && (a, b).last_of() == b && (a, b).nested_of() == (a, b),
        (a, b, c).first_of() == a && (a, b, c).last_of() == c && (a, b, c).nested_of() == (a, (b, c)),
        (a, b, c, d).first_of() == a && (a, b, c, d).last_of() == d && (a, b, c, d).nested_of() == (
            a,
            (b, (c, d)),
        ),
        (a, b, c, d, e).first_of() == a && (a, b, c, d, e).last_of() == e && (
            a,
            b,
            c,
            d,
            e,
        ).nested_of() == (a, (b, (c, (d, e)))),
        (a, b, c, d, e, f).first_of() == a && (a, b, c, d, e, f).last_of() == f && (
            a,
            b,
            c,
            d,
            e,
            f,
        ).nested_of() == (a, (b, (c, (d, (e, f))))),
{
}

// ---------------------------------------------------------------------------
// Futures
// ---------------------------------------------------------------------------

/// A future that has resolved with its result has given up the result and its owners.
pub proof fn lemma_delivered<T, DO, O, R>(
    before: DeviceFuture<T, DO, O, R>,
    after: DeviceFuture<T, DO, O, R>,
    r: PollAction<T>,
)
    requires
        after.delivered(&before, r),
    ensures
        before.result matches Some(x) && r == PollAction::<T>::Ready(Ok(x)),
        after.result is None,
        after.state == DeviceFutureState::Complete,
        !after.undelivered(),
        before.execution_context is Some ==> after.execution_context is Some
            && after.execution_context->Some_0.submission.owners.held() is None
            && after.execution_context->Some_0.cuda_stream
            == before.execution_context->Some_0.cuda_stream,
{
}

/// A future that has been told of a fault keeps its result and its owners: the device may
/// still use them.
pub proof fn lemma_faulted<T, DO, O, R>(
    before: DeviceFuture<T, DO, O, R>,
    after: DeviceFuture<T, DO, O, R>,
    code: u32,
    r: PollAction<T>,
)
    requires
        after.faulted(&before, code, r),
    ensures
        r matches PollAction::Ready(Err(e)) && e == DeviceError::Driver(code),
        after.result == before.result,
        after.execution_context == before.execution_context,
        after.fault_delivered,
        before.result is Some ==> after.undelivered(),
{
}

/// Work is known to have finished where the stream is idle, or was busy and has been
/// waited for; a stream that records, or that reports an error, proves nothing.
pub proof fn lemma_drained(health: StreamHealth, synced: Result<(), u32>)
    ensures
        submission::drained(health, synced) is Ok <==> health == StreamHealth::Idle || (health
            == StreamHealth::Busy && synced is Ok),
        future::drained(Some(health), synced) is Ok <==> health == StreamHealth::Idle || (health
            == StreamHealth::Busy && synced is Ok),
        future::drained(None, synced) is Err,
        health == StreamHealth::Busy ==> (synced matches Err(code) ==> submission::drained(
            health,
            synced,
        ) == Err::<(), DeviceErrorV>(DeviceErrorV::Driver(code)) && future::drained(
            Some(health),
            synced,
        ) == Err::<(), DeviceErrorV>(DeviceErrorV::Driver(code))),
        health matches StreamHealth::Faulted(code) ==> submission::drained(health, synced) == Err::<
            (),
            DeviceErrorV,
        >(DeviceErrorV::Driver(code)) && future::drained(Some(health), synced) == Err::<
            (),
            DeviceErrorV,
        >(DeviceErrorV::Driver(code)),
{
}

} // verus!
