//! Operations with several results, taken apart.
use vstd::prelude::*;
use crate::device::context::ExecutionContext;
use crate::device::error::DeviceError;
use crate::device::operation::DeviceOp;

verus! {

/// Several results together.
pub trait Parts: Sized {
    type First;

    type Last;

    /// The results as a pair of the first and, pair in pair, the others.
    type Nested;

    spec fn first_of(self) -> Self::First;

    spec fn last_of(self) -> Self::Last;

    spec fn nested_of(self) -> Self::Nested;

    /// The first result; the others are dropped.
    fn into_first(self) -> (r: Self::First)
        ensures
            r == self.first_of(),
    ;

    /// The last result; the others are dropped.
    fn into_last(self) -> (r: Self::Last)
        ensures
            r == self.last_of(),
    ;

    /// The results, pair in pair.
    fn into_nested(self) -> (r: Self::Nested)
        ensures
            r == self.nested_of(),
    ;
}

impl<T0> Parts for (T0,) {
    type First = T0;

    type Last = T0;

    type Nested = T0;

    open spec fn first_of(self) -> T0 {
        self.0
    }

    open spec fn last_of(self) -> T0 {
        self.0
    }

    open spec fn nested_of(self) -> T0 {
        self.0
    }

    fn into_first(self) -> (r: T0) {
        self.0
    }

    fn into_last(self) -> (r: T0) {
        self.0
    }

    fn into_nested(self) -> (r: T0) {
        self.0
    }
}

impl<T0, T1> Parts for (T0, T1) {
    type First = T0;

    type Last = T1;

    type Nested = (T0, T1);

    open spec fn first_of(self) -> T0 {
        self.0
    }

    open spec fn last_of(self) -> T1 {
        self.1
    }

    open spec fn nested_of(self) -> (T0, T1) {
        (self.0, self.1)
    }

    fn into_first(self) -> (r: T0) {
        self.0
    }

    fn into_last(self) -> (r: T1) {
        self.1
    }

    fn into_nested(self) -> (r: (T0, T1)) {
        (self.0, self.1)
    }
}

impl<T0, T1, T2> Parts for (T0, T1, T2) {
    type First = T0;

    type Last = T2;

    type Nested = (T0, (T1, T2));

    open spec fn first_of(self) -> T0 {
        self.0
    }

    open spec fn last_of(self) -> T2 {
        self.2
    }

    open spec fn nested_of(self) -> (T0, (T1, T2)) {
        (self.0, (self.1, self.2))
    }

    fn into_first(self) -> (r: T0) {
        self.0
    }

    fn into_last(self) -> (r: T2) {
        self.2
    }

    fn into_nested(self) -> (r: (T0, (T1, T2))) {
        (self.0, (self.1, self.2))
    }
}

impl<T0, T1, T2, T3> Parts for (T0, T1, T2, T3) {
    type First = T0;

    type Last = T3;

    type Nested = (T0, (T1, (T2, T3)));

    open spec fn first_of(self) -> T0 {
        self.0
    }

    open spec fn last_of(self) -> T3 {
        self.3
    }

    open spec fn nested_of(self) -> (T0, (T1, (T2, T3))) {
        (self.0, (self.1, (self.2, self.3)))
    }

    fn into_first(self) -> (r: T0) {
        self.0
    }

    fn into_last(self) -> (r: T3) {
        self.3
    }

    fn into_nested(self) -> (r: (T0, (T1, (T2, T3)))) {
        (self.0, (self.1, (self.2, self.3)))
    }
}

impl<T0, T1, T2, T3, T4> Parts for (T0, T1, T2, T3, T4) {
    type First = T0;

    type Last = T4;

    type Nested = (T0, (T1, (T2, (T3, T4))));

    open spec fn first_of(self) -> T0 {
        self.0
    }

    open spec fn last_of(self) -> T4 {
        self.4
    }

    open spec fn nested_of(self) -> (T0, (T1, (T2, (T3, T4)))) {
        (self.0, (self.1, (self.2, (self.3, self.4))))
    }

    fn into_first(self) -> (r: T0) {
        self.0
    }

    fn into_last(self) -> (r: T4) {
        self.4
    }

    fn into_nested(self) -> (r: (T0, (T1, (T2, (T3, T4))))) {
        (self.0, (self.1, (self.2, (self.3, self.4))))
    }
}

impl<T0, T1, T2, T3, T4, T5> Parts for (T0, T1, T2, T3, T4, T5) {
    type First = T0;

    type Last = T5;

    type Nested = (T0, (T1, (T2, (T3, (T4, T5)))));

    open spec fn first_of(self) -> T0 {
        self.0
    }

    open spec fn last_of(self) -> T5 {
        self.5
    }

    open spec fn nested_of(self) -> (T0, (T1, (T2, (T3, (T4, T5))))) {
        (self.0, (self.1, (self.2, (self.3, (self.4, self.5)))))
    }

    fn into_first(self) -> (r: T0) {
        self.0
    }

    fn into_last(self) -> (r: T5) {
        self.5
    }

    fn into_nested(self) -> (r: (T0, (T1, (T2, (T3, (T4, T5)))))) {
        (self.0, (self.1, (self.2, (self.3, (self.4, self.5)))))
    }
}

/// The first result of an operation.
pub struct First<DI>(pub DI);

impl<O, R, DI> DeviceOp<O, R> for First<DI> where DI: DeviceOp<O, R>, DI::Output: Parts {
    type Output = <DI::Output as Parts>::First;

    open spec fn ready(&self) -> bool {
        self.0.ready()
    }

    /// Fails where the operation does, and leaves the context as the operation does.
    open spec fn runs(
        &self,
        before: ExecutionContext<O, R>,
        r: Result<Self::Output, DeviceError>,
        after: ExecutionContext<O, R>,
    ) -> bool {
        exists|x: Result<DI::Output, DeviceError>| #[trigger]
            self.0.runs(before, x, after) && r == (match x {
                Err(e) => Err::<Self::Output, DeviceError>(e),
                Ok(t) => Ok(t.first_of()),
            })
    }

    fn execute(self, context: &mut ExecutionContext<O, R>) -> (r: Result<Self::Output, DeviceError>) {
        let t = self.0.execute(context)?;
        Ok(t.into_first())
    }
}

/// The last result of an operation.
pub struct Last<DI>(pub DI);

impl<O, R, DI> DeviceOp<O, R> for Last<DI> where DI: DeviceOp<O, R>, DI::Output: Parts {
    type Output = <DI::Output as Parts>::Last;

    open spec fn ready(&self) -> bool {
        self.0.ready()
    }

    /// Fails where the operation does, and leaves the context as the operation does.
    open spec fn runs(
        &self,
        before: ExecutionContext<O, R>,
        r: Result<Self::Output, DeviceError>,
        after: ExecutionContext<O, R>,
    ) -> bool {
        exists|x: Result<DI::Output, DeviceError>| #[trigger]
            self.0.runs(before, x, after) && r == (match x {
                Err(e) => Err::<Self::Output, DeviceError>(e),
                Ok(t) => Ok(t.last_of()),
            })
    }

    fn execute(self, context: &mut ExecutionContext<O, R>) -> (r: Result<Self::Output, DeviceError>) {
        let t = self.0.execute(context)?;
        Ok(t.into_last())
    }
}

/// The results of an operation, pair in pair.
pub struct Nested<DI>(pub DI);

impl<O, R, DI> DeviceOp<O, R> for Nested<DI> where DI: DeviceOp<O, R>, DI::Output: Parts {
    type Output = <DI::Output as Parts>::Nested;

    open spec fn ready(&self) -> bool {
        self.0.ready()
    }

    /// Fails where the operation does, and leaves the context as the operation does.
    open spec fn runs(
        &self,
        before: ExecutionContext<O, R>,
        r: Result<Self::Output, DeviceError>,
        after: ExecutionContext<O, R>,
    ) -> bool {
        exists|x: Result<DI::Output, DeviceError>| #[trigger]
            self.0.runs(before, x, after) && r == (match x {
                Err(e) => Err::<Self::Output, DeviceError>(e),
                Ok(t) => Ok(t.nested_of()),
            })
    }

    fn execute(self, context: &mut ExecutionContext<O, R>) -> (r: Result<Self::Output, DeviceError>) {
        let t = self.0.execute(context)?;
        Ok(t.into_nested())
    }
}

/// An operation with one result.
pub trait Unzippable1<O, R, T0>: DeviceOp<O, R, Output = (T0,)> {
    /// The result by itself.
    fn unzip(self) -> (ops: (First<Self>,))
        ensures
            ops.0.0 == self,
    {
        (First(self),)
    }
}

impl<O, R, T0, DI: DeviceOp<O, R, Output = (T0,)>> Unzippable1<O, R, T0> for DI {

}

/// An operation with two results.
pub trait Unzippable2<O, R, T0, T1>: DeviceOp<O, R, Output = (T0, T1)> {
    /// The first result.
    fn first(self) -> (op: First<Self>)
        ensures
            op.0 == self,
    {
        First(self)
    }

    /// The last result.
    fn last(self) -> (op: Last<Self>)
        ensures
            op.0 == self,
    {
        Last(self)
    }

    /// The operation with its results pair in pair, which can be taken apart one pair at
    /// a time.
    fn nested(self) -> (op: Nested<Self>)
        ensures
            op.0 == self,
    {
        Nested(self)
    }
}

impl<O, R, T0, T1, DI: DeviceOp<O, R, Output = (T0, T1)>> Unzippable2<O, R, T0, T1> for DI {

}

/// An operation with three results.
pub trait Unzippable3<O, R, T0, T1, T2>: DeviceOp<O, R, Output = (T0, T1, T2)> {
    /// The first result.
    fn first(self) -> (op: First<Self>)
        ensures
            op.0 == self,
    {
        First(self)
    }

    /// The last result.
    fn last(self) -> (op: Last<Self>)
        ensures
            op.0 == self,
    {
        Last(self)
    }

    /// The operation with its results pair in pair, which can be taken apart one pair at
    /// a time.
    fn nested(self) -> (op: Nested<Self>)
        ensures
            op.0 == self,
    {
        Nested(self)
    }
}

impl<O, R, T0, T1, T2, DI: DeviceOp<O, R, Output = (T0, T1, T2)>> Unzippable3<O, R, T0, T1, T2> for DI {

}

/// An operation with four results.
pub trait Unzippable4<O, R, T0, T1, T2, T3>: DeviceOp<O, R, Output = (T0, T1, T2, T3)> {
    /// The first result.
    fn first(self) -> (op: First<Self>)
        ensures
            op.0 == self,
    {
        First(self)
    }

    /// The last result.
    fn last(self) -> (op: Last<Self>)
        ensures
            op.0 == self,
    {
        Last(self)
    }

    /// The operation with its results pair in pair, which can be taken apart one pair at
    /// a time.
    fn nested(self) -> (op: Nested<Self>)
        ensures
            op.0 == self,
    {
        Nested(self)
    }
}

impl<O, R, T0, T1, T2, T3, DI: DeviceOp<O, R, Output = (T0, T1, T2, T3)>> Unzippable4<O, R, T0, T1, T2, T3> for DI {

}

/// An operation with five results.
pub trait Unzippable5<O, R, T0, T1, T2, T3, T4>: DeviceOp<O, R, Output = (T0, T1, T2, T3, T4)> {
    /// The first result.
    fn first(self) -> (op: First<Self>)
        ensures
            op.0 == self,
    {
        First(self)
    }

    /// The last result.
    fn last(self) -> (op: Last<Self>)
        ensures
            op.0 == self,
    {
        Last(self)
    }

    /// The operation with its results pair in pair, which can be taken apart one pair at
    /// a time.
    fn nested(self) -> (op: Nested<Self>)
        ensures
            op.0 == self,
    {
        Nested(self)
    }
}

impl<O, R, T0, T1, T2, T3, T4, DI: DeviceOp<O, R, Output = (T0, T1, T2, T3, T4)>> Unzippable5<O, R, T0, T1, T2, T3, T4> for DI {

}

/// An operation with six results.
pub trait Unzippable6<O, R, T0, T1, T2, T3, T4, T5>: DeviceOp<O, R, Output = (T0, T1, T2, T3, T4, T5)> {
    /// The first result.
    fn first(self) -> (op: First<Self>)
        ensures
            op.0 == self,
    {
        First(self)
    }

    /// The last result.
    fn last(self) -> (op: Last<Self>)
        ensures
            op.0 == self,
    {
        Last(self)
    }

    /// The operation with its results pair in pair, which can be taken apart one pair at
    /// a time.
    fn nested(self) -> (op: Nested<Self>)
        ensures
            op.0 == self,
    {
        Nested(self)
    }
}

impl<O, R, T0, T1, T2, T3, T4, T5, DI: DeviceOp<O, R, Output = (T0, T1, T2, T3, T4, T5)>> Unzippable6<O, R, T0, T1, T2, T3, T4, T5> for DI {

}

} // verus!
