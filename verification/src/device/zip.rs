//! Operations side by side.
use vstd::prelude::*;
use crate::device::context::ExecutionContext;
use crate::device::error::DeviceError;
use crate::device::operation::DeviceOp;

verus! {

/// Operations that can be put side by side.
pub trait Zippable: Sized {
    type Op;

    fn zip(self) -> Self::Op;
}

/// Two operations, one after the other.
pub struct Zip<A, B> {
    pub a: A,
    pub b: B,
}

impl<O, R, A: DeviceOp<O, R>, B: DeviceOp<O, R>> DeviceOp<O, R> for Zip<A, B> {
    type Output = (A::Output, B::Output);

    open spec fn ready(&self) -> bool {
        self.a.ready() && self.b.ready()
    }

    /// The first that fails ends the execution with its error; else the
    /// outputs come together.
    open spec fn runs(
        &self,
        before: ExecutionContext<O, R>,
        r: Result<Self::Output, DeviceError>,
        after: ExecutionContext<O, R>,
    ) -> bool {
        exists|x: Result<A::Output, DeviceError>, c: ExecutionContext<O, R>| #[trigger]
            self.a.runs(before, x, c) && match x {
                Err(e) => r == Err::<Self::Output, DeviceError>(e) && after == c,
                Ok(u) => exists|y: Result<B::Output, DeviceError>| #[trigger]
                    self.b.runs(c, y, after) && r == (match y {
                        Err(e) => Err::<Self::Output, DeviceError>(e),
                        Ok(v) => Ok((u, v)),
                    }),
            }
    }

    fn execute(self, context: &mut ExecutionContext<O, R>) -> (r: Result<Self::Output, DeviceError>) {
        let a = self.a.execute(context)?;
        let b = self.b.execute(context)?;
        Ok((a, b))
    }
}

impl<A, B> Zippable for (A, B) {
    type Op = Zip<A, B>;

    fn zip(self) -> (op: Zip<A, B>)
        ensures
            op == (Zip { a: self.0, b: self.1 }),
    {
        Zip { a: self.0, b: self.1 }
    }
}

/// Three operations, one after the other.
pub struct Zip3<A, B, C> {
    pub a: A,
    pub b: B,
    pub c: C,
}

impl<O, R, A: DeviceOp<O, R>, B: DeviceOp<O, R>, C: DeviceOp<O, R>> DeviceOp<O, R> for Zip3<A, B, C> {
    type Output = (A::Output, B::Output, C::Output);

    open spec fn ready(&self) -> bool {
        self.a.ready() && self.b.ready() && self.c.ready()
    }

    /// The first that fails ends the execution with its error; else the
    /// outputs come together.
    open spec fn runs(
        &self,
        before: ExecutionContext<O, R>,
        r: Result<Self::Output, DeviceError>,
        after: ExecutionContext<O, R>,
    ) -> bool {
        let rest = Zip { a: self.b, b: self.c };
        exists|x: Result<A::Output, DeviceError>, c: ExecutionContext<O, R>| #[trigger]
            self.a.runs(before, x, c) && match x {
                Err(e) => r == Err::<Self::Output, DeviceError>(e) && after == c,
                Ok(u) => exists|y: Result<(B::Output, C::Output), DeviceError>| #[trigger]
                    rest.runs(c, y, after) && r == (match y {
                        Err(e) => Err::<Self::Output, DeviceError>(e),
                        Ok(v) => Ok((u, v.0, v.1)),
                    }),
            }
    }

    fn execute(self, context: &mut ExecutionContext<O, R>) -> (r: Result<Self::Output, DeviceError>) {
        let rest = Zip { a: self.b, b: self.c };
        let a = self.a.execute(context)?;
        let v = rest.execute(context)?;
        Ok((a, v.0, v.1))
    }
}

impl<A, B, C> Zippable for (A, B, C) {
    type Op = Zip3<A, B, C>;

    fn zip(self) -> (op: Zip3<A, B, C>)
        ensures
            op == (Zip3 { a: self.0, b: self.1, c: self.2 }),
    {
        Zip3 { a: self.0, b: self.1, c: self.2 }
    }
}

/// Four operations, one after the other.
pub struct Zip4<A, B, C, D> {
    pub a: A,
    pub b: B,
    pub c: C,
    pub d: D,
}

impl<O, R, A: DeviceOp<O, R>, B: DeviceOp<O, R>, C: DeviceOp<O, R>, D: DeviceOp<O, R>> DeviceOp<O, R> for Zip4<A, B, C, D> {
    type Output = (A::Output, B::Output, C::Output, D::Output);

    open spec fn ready(&self) -> bool {
        self.a.ready() && self.b.ready() && self.c.ready() && self.d.ready()
    }

    /// The first that fails ends the execution with its error; else the
    /// outputs come together.
    open spec fn runs(
        &self,
        before: ExecutionContext<O, R>,
        r: Result<Self::Output, DeviceError>,
        after: ExecutionContext<O, R>,
    ) -> bool {
        let rest = Zip3 { a: self.b, b: self.c, c: self.d };
        exists|x: Result<A::Output, DeviceError>, c: ExecutionContext<O, R>| #[trigger]
            self.a.runs(before, x, c) && match x {
                Err(e) => r == Err::<Self::Output, DeviceError>(e) && after == c,
                Ok(u) => exists|y: Result<(B::Output, C::Output, D::Output), DeviceError>| #[trigger]
                    rest.runs(c, y, after) && r == (match y {
                        Err(e) => Err::<Self::Output, DeviceError>(e),
                        Ok(v) => Ok((u, v.0, v.1, v.2)),
                    }),
            }
    }

    fn execute(self, context: &mut ExecutionContext<O, R>) -> (r: Result<Self::Output, DeviceError>) {
        let rest = Zip3 { a: self.b, b: self.c, c: self.d };
        let a = self.a.execute(context)?;
        let v = rest.execute(context)?;
        Ok((a, v.0, v.1, v.2))
    }
}

impl<A, B, C, D> Zippable for (A, B, C, D) {
    type Op = Zip4<A, B, C, D>;

    fn zip(self) -> (op: Zip4<A, B, C, D>)
        ensures
            op == (Zip4 { a: self.0, b: self.1, c: self.2, d: self.3 }),
    {
        Zip4 { a: self.0, b: self.1, c: self.2, d: self.3 }
    }
}

/// Five operations, one after the other.
pub struct Zip5<A, B, C, D, E> {
    pub a: A,
    pub b: B,
    pub c: C,
    pub d: D,
    pub e: E,
}

impl<O, R, A: DeviceOp<O, R>, B: DeviceOp<O, R>, C: DeviceOp<O, R>, D: DeviceOp<O, R>, E: DeviceOp<O, R>> DeviceOp<O, R> for Zip5<A, B, C, D, E> {
    type Output = (A::Output, B::Output, C::Output, D::Output, E::Output);

    open spec fn ready(&self) -> bool {
        self.a.ready() && self.b.ready() && self.c.ready() && self.d.ready() && self.e.ready()
    }

    /// The first that fails ends the execution with its error; else the
    /// outputs come together.
    open spec fn runs(
        &self,
        before: ExecutionContext<O, R>,
        r: Result<Self::Output, DeviceError>,
        after: ExecutionContext<O, R>,
    ) -> bool {
        let rest = Zip4 { a: self.b, b: self.c, c: self.d, d: self.e };
        exists|x: Result<A::Output, DeviceError>, c: ExecutionContext<O, R>| #[trigger]
            self.a.runs(before, x, c) && match x {
                Err(e) => r == Err::<Self::Output, DeviceError>(e) && after == c,
                Ok(u) => exists|y: Result<(B::Output, C::Output, D::Output, E::Output), DeviceError>| #[trigger]
                    rest.runs(c, y, after) && r == (match y {
                        Err(e) => Err::<Self::Output, DeviceError>(e),
                        Ok(v) => Ok((u, v.0, v.1, v.2, v.3)),
                    }),
            }
    }

    fn execute(self, context: &mut ExecutionContext<O, R>) -> (r: Result<Self::Output, DeviceError>) {
        let rest = Zip4 { a: self.b, b: self.c, c: self.d, d: self.e };
        let a = self.a.execute(context)?;
        let v = rest.execute(context)?;
        Ok((a, v.0, v.1, v.2, v.3))
    }
}

impl<A, B, C, D, E> Zippable for (A, B, C, D, E) {
    type Op = Zip5<A, B, C, D, E>;

    fn zip(self) -> (op: Zip5<A, B, C, D, E>)
        ensures
            op == (Zip5 { a: self.0, b: self.1, c: self.2, d: self.3, e: self.4 }),
    {
        Zip5 { a: self.0, b: self.1, c: self.2, d: self.3, e: self.4 }
    }
}

/// Six operations, one after the other.
pub struct Zip6<A, B, C, D, E, F> {
    pub a: A,
    pub b: B,
    pub c: C,
    pub d: D,
    pub e: E,
    pub f: F,
}

impl<O, R, A: DeviceOp<O, R>, B: DeviceOp<O, R>, C: DeviceOp<O, R>, D: DeviceOp<O, R>, E: DeviceOp<O, R>, F: DeviceOp<O, R>> DeviceOp<O, R> for Zip6<A, B, C, D, E, F> {
    type Output = (A::Output, B::Output, C::Output, D::Output, E::Output, F::Output);

    open spec fn ready(&self) -> bool {
        self.a.ready() && self.b.ready() && self.c.ready() && self.d.ready() && self.e.ready() && self.f.ready()
    }

    /// The first that fails ends the execution with its error; else the
    /// outputs come together.
    open spec fn runs(
        &self,
        before: ExecutionContext<O, R>,
        r: Result<Self::Output, DeviceError>,
        after: ExecutionContext<O, R>,
    ) -> bool {
        let rest = Zip5 { a: self.b, b: self.c, c: self.d, d: self.e, e: self.f };
        exists|x: Result<A::Output, DeviceError>, c: ExecutionContext<O, R>| #[trigger]
            self.a.runs(before, x, c) && match x {
                Err(e) => r == Err::<Self::Output, DeviceError>(e) && after == c,
                Ok(u) => exists|y: Result<(B::Output, C::Output, D::Output, E::Output, F::Output), DeviceError>| #[trigger]
                    rest.runs(c, y, after) && r == (match y {
                        Err(e) => Err::<Self::Output, DeviceError>(e),
                        Ok(v) => Ok((u, v.0, v.1, v.2, v.3, v.4)),
                    }),
            }
    }

    fn execute(self, context: &mut ExecutionContext<O, R>) -> (r: Result<Self::Output, DeviceError>) {
        let rest = Zip5 { a: self.b, b: self.c, c: self.d, d: self.e, e: self.f };
        let a = self.a.execute(context)?;
        let v = rest.execute(context)?;
        Ok((a, v.0, v.1, v.2, v.3, v.4))
    }
}

impl<A, B, C, D, E, F> Zippable for (A, B, C, D, E, F) {
    type Op = Zip6<A, B, C, D, E, F>;

    fn zip(self) -> (op: Zip6<A, B, C, D, E, F>)
        ensures
            op == (Zip6 { a: self.0, b: self.1, c: self.2, d: self.3, e: self.4, f: self.5 }),
    {
        Zip6 { a: self.0, b: self.1, c: self.2, d: self.3, e: self.4, f: self.5 }
    }
}

} // verus!
