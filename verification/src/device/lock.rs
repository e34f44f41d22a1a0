//! The execution lock: on a thread one operation executes at a time.
use vstd::prelude::*;
use crate::device::error::{internal, DeviceError, DeviceErrorV};

verus! {

/// Why a second operation is refused.
pub open spec fn reentrant() -> DeviceErrorV {
    DeviceErrorV::Internal(
        "DeviceOp execution is non-reentrant: another DeviceOp is already executing on this thread. If this is intentional and you have verified there are no cross-stream data races, use `then_unchecked`."@,
    )
}

/// Whether an operation executes on a thread.
pub struct ExecutionLock {
    pub held: bool,
}

impl ExecutionLock {
    /// Nothing executes yet.
    pub fn new() -> (l: ExecutionLock)
        ensures
            !l.held,
    {
        ExecutionLock { held: false }
    }

    /// Take the lock. Where it is held already, it stays with its holder.
    pub fn acquire_execution_lock(&mut self) -> (r: Result<(), DeviceError>)
        ensures
            final(self).held,
            match r {
                Ok(()) => !old(self).held,
                Err(e) => old(self).held && e@ == reentrant(),
            },
    {
        if self.held {
            return Err(
                internal(
                    "DeviceOp execution is non-reentrant: another DeviceOp is already executing on this thread. If this is intentional and you have verified there are no cross-stream data races, use `then_unchecked`.",
                ),
            );
        }
        self.held = true;
        Ok(())
    }

    /// Give the lock back.
    pub fn release(&mut self)
        ensures
            !final(self).held,
    {
        self.held = false;
    }

    /// Give the lock up for a while; the result says whether it was held.
    pub fn suspend(&mut self) -> (was_held: bool)
        ensures
            !final(self).held,
            was_held == old(self).held,
    {
        let was_held: bool = self.held;
        self.held = false;
        was_held
    }

    /// End a suspension: the lock is as it was when it was given up.
    pub fn resume(&mut self, was_held: bool)
        ensures
            final(self).held == was_held,
    {
        self.held = was_held;
    }
}

} // verus!
