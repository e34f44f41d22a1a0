//! Owners that are kept until submitted work completes, apart from the
//! operation's output.
use vstd::prelude::*;
use crate::device::context::ExecutionContext;
use crate::device::error::{internal, DeviceError, DeviceErrorV};
use crate::device::future::StreamHealth;

verus! {

/// Leaks a value by `std::mem::forget`: it is not dropped, and what it owns
/// stays. Nothing is claimed of it, since dropping has no meaning here.
#[verifier::external_body]
pub(crate) fn leak<T>(value: T) {
    std::mem::forget(value);
}

/// Why an owner is refused.
pub open spec fn already_completed() -> DeviceErrorV {
    DeviceErrorV::Internal("submission already completed"@)
}

/// What became of owners.
#[derive(Clone, Copy, Debug, PartialEq, Eq, Structural)]
pub enum Release {
    /// There was nothing to release.
    Nothing,
    /// They were dropped.
    Dropped,
    /// They were leaked: whether the device still uses them is not known.
    Leaked,
}

/// Owners of one submission, none once it has completed.
pub struct Owners<T>(pub Option<Vec<T>>);

impl<T> Owners<T> {
    /// The owners that are held.
    pub open spec fn held(&self) -> Option<Seq<T>> {
        match self.0 {
            Some(v) => Some(v@),
            None => None,
        }
    }

    /// No owners yet.
    pub fn new() -> (o: Owners<T>)
        ensures
            o.held() == Some(Seq::<T>::empty()),
    {
        Owners(Some(Vec::new()))
    }

    /// Hold an owner; a submission that has completed takes no more.
    pub fn retain(&mut self, owner: T) -> (r: Result<(), DeviceError>)
        ensures
            match old(self).held() {
                Some(s) => r is Ok && final(self).held() == Some(s.push(owner)),
                None => {
                    &&& r is Err
                    &&& r->Err_0@ == already_completed()
                    &&& final(self).held() is None
                },
            },
    {
        match self.0.take() {
            Some(mut v) => {
                v.push(owner);
                self.0 = Some(v);
                Ok(())
            },
            None => Err(internal("submission already completed")),
        }
    }

    /// Let the owners go. Where there are any, `wait` is asked for proof that
    /// the work has finished; without it they are leaked.
    pub fn release<F: FnOnce() -> Result<(), DeviceError>>(&mut self, wait: F) -> (r: Release)
        requires
            old(self).held() matches Some(s) ==> (s.len() > 0 ==> wait.requires(())),
        ensures
            final(self).held() is None,
            match old(self).held() {
                None => r == Release::Nothing,
                Some(s) => if s.len() == 0 {
                    r == Release::Dropped
                } else {
                    exists|o: Result<(), DeviceError>| #[trigger]
                        wait.ensures((), o) && r == (if o is Ok {
                            Release::Dropped
                        } else {
                            Release::Leaked
                        })
                },
            },
    {
        match self.0.take() {
            None => Release::Nothing,
            Some(owners) => {
                if owners.len() > 0 {
                    let o = wait();
                    if o.is_err() {
                        leak(owners);
                        return Release::Leaked;
                    }
                }
                Release::Dropped
            },
        }
    }

    /// Drop the owners: the work has finished.
    pub fn complete(&mut self)
        ensures
            final(self).held() is None,
    {
        self.0 = None;
    }
}

/// A resource of a recorded graph, whose accesses are acquired anew on each
/// launch: an implementation registers them with the context it is given.
pub trait ReplayResource: Sized {
    /// From a context, acquiring the accesses may end with this outcome and leave
    /// the context like this.
    spec fn retains<O>(
        &self,
        before: ExecutionContext<O, Self>,
        r: Result<(), DeviceError>,
        after: ExecutionContext<O, Self>,
    ) -> bool;

    /// Acquire the accesses for a launch.
    fn retain_for_launch<O>(&self, ctx: &mut ExecutionContext<O, Self>) -> (r: Result<
        (),
        DeviceError,
    >)
        ensures
            self.retains(*old(ctx), r, *final(ctx)),
    ;
}

/// What a submission holds: owners, and the resources that a graph recorded.
pub struct Submission<O, R> {
    pub owners: Owners<O>,
    pub recorded: Vec<R>,
}

impl<O, R> Submission<O, R> {
    /// A submission without owners or resources.
    pub fn new() -> (s: Submission<O, R>)
        ensures
            s.owners.held() == Some(Seq::<O>::empty()),
            s.recorded@ == Seq::<R>::empty(),
    {
        Submission { owners: Owners::new(), recorded: Vec::new() }
    }

    /// Hold an owner until the submission completes.
    pub fn retain(&mut self, owner: O) -> (r: Result<(), DeviceError>)
        ensures
            final(self).recorded == old(self).recorded,
            match old(self).owners.held() {
                Some(s) => r is Ok && final(self).owners.held() == Some(s.push(owner)),
                None => {
                    &&& r is Err
                    &&& r->Err_0@ == already_completed()
                    &&& final(self).owners.held() is None
                },
            },
    {
        self.owners.retain(owner)
    }

    /// Remember a resource for replays.
    pub fn record(&mut self, resource: R)
        ensures
            final(self).recorded@ == old(self).recorded@.push(resource),
            final(self).owners == old(self).owners,
    {
        self.recorded.push(resource);
    }

    /// Drop the owners: the work has finished.
    pub fn complete(&mut self)
        ensures
            final(self).owners.held() is None,
            final(self).recorded == old(self).recorded,
    {
        self.owners.complete();
    }
}

/// The accesses of the first `n` resources have been acquired, one after the
/// other.
pub open spec fn replayed<O, R: ReplayResource>(
    recorded: Seq<R>,
    n: int,
    before: ExecutionContext<O, R>,
    after: ExecutionContext<O, R>,
) -> bool
    decreases n,
{
    if n <= 0 {
        after == before
    } else {
        exists|c: ExecutionContext<O, R>, r: Result<(), DeviceError>|
            replayed(recorded, n - 1, before, c) && #[trigger] recorded[n - 1].retains(c, r, after)
                && r is Ok
    }
}

/// Acquire the accesses of recorded resources, in the order in which they were
/// recorded, up to the first that fails.
pub fn replay<O, R: ReplayResource>(recorded: &Vec<R>, ctx: &mut ExecutionContext<O, R>) -> (r: Result<
    (),
    DeviceError,
>)
    ensures
        match r {
            Ok(()) => replayed(recorded@, recorded@.len() as int, *old(ctx), *final(ctx)),
            Err(e) => exists|i: int, c: ExecutionContext<O, R>|
                0 <= i < recorded@.len() && #[trigger] replayed(recorded@, i, *old(ctx), c)
                    && recorded@[i].retains(c, Err(e), *final(ctx)),
        },
{
    let mut i: usize = 0;
    while i < recorded.len()
        invariant
            i <= recorded@.len(),
            replayed(recorded@, i as int, *old(ctx), *ctx),
        decreases recorded@.len() - i,
    {
        let ghost c = *ctx;
        let got = recorded[i].retain_for_launch(ctx);
        match got {
            Err(e) => {
                assert(replayed(recorded@, i as int, *old(ctx), c));
                return Err(e);
            },
            Ok(()) => {
                assert(recorded@[i + 1 - 1].retains(c, got, *ctx));
            },
        }
        i = i + 1;
    }
    Ok(())
}

/// What the host knows of the work of a dropped submission.
pub open spec fn drained(
    health: StreamHealth,
    synchronized: Result<(), u32>,
) -> Result<(), DeviceErrorV> {
    match health {
        StreamHealth::Idle => Ok(()),
        StreamHealth::Busy => match synchronized {
            Ok(()) => Ok(()),
            Err(code) => Err(DeviceErrorV::Driver(code)),
        },
        StreamHealth::Faulted(code) => Err(DeviceErrorV::Driver(code)),
        StreamHealth::Capturing => Err(
            DeviceErrorV::Internal("submission is still being captured"@),
        ),
    }
}

/// Whether the work of a dropped submission is known to have finished, by the
/// health of its stream and, where that is busy, the outcome of synchronizing
/// it.
pub fn drain_outcome(health: StreamHealth, synchronized: Result<(), u32>) -> (r: Result<
    (),
    DeviceError,
>)
    ensures
        match drained(health, synchronized) {
            Ok(()) => r is Ok,
            Err(e) => r is Err && r->Err_0@ == e,
        },
{
    match health {
        StreamHealth::Idle => Ok(()),
        StreamHealth::Busy => match synchronized {
            Ok(()) => Ok(()),
            Err(code) => Err(DeviceError::Driver(code)),
        },
        StreamHealth::Faulted(code) => Err(DeviceError::Driver(code)),
        StreamHealth::Capturing => Err(internal("submission is still being captured")),
    }
}

} // verus!
