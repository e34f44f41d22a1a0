//! Contexts that are cloned.
//!
//! A clone is at the same place and shares the submission, so that one context stands
//! for all of them: what is done through one is seen through the others.
use vstd::prelude::*;
use crate::device::context::ExecutionContext;
use crate::device::error::DeviceError;
use crate::device::submission;

verus! {

/// A context and its clones, which are numbered from zero.
pub struct SharedContext<O, R> {
    pub context: ExecutionContext<O, R>,
    pub count: usize,
}

/// What the clones of a context share: how many they are, and the owners that are
/// held, none once the submission has completed.
#[verifier::ext_equal]
pub struct SharedV<O> {
    pub count: int,
    pub held: Option<Seq<O>>,
}

/// What is done through a clone.
pub enum CloneEvent<O> {
    Cloned { of: int },
    /// An owner was to be held, and was accepted or not.
    Retained { by: int, owner: O, accepted: bool },
    Completed { by: int },
}

/// What is done through a clone changes what all of them share.
pub open spec fn shared_step<O>(before: SharedV<O>, e: CloneEvent<O>, after: SharedV<O>) -> bool {
    match e {
        CloneEvent::Cloned { of } => 0 <= of < before.count && after == (SharedV {
            count: before.count + 1,
            ..before
        }),
        CloneEvent::Retained { by, owner, accepted } => {
            &&& 0 <= by < before.count
            &&& accepted == (before.held is Some)
            &&& after == (SharedV {
                held: match before.held {
                    Some(s) => Some(s.push(owner)),
                    None => None,
                },
                ..before
            })
        },
        CloneEvent::Completed { by } => 0 <= by < before.count && after == (SharedV {
            held: None,
            ..before
        }),
    }
}

impl<O, R> SharedContext<O, R> {
    /// What the clones share.
    pub open spec fn shared(&self) -> SharedV<O> {
        SharedV { count: self.count as int, held: self.context.submission.owners.held() }
    }

    /// A context without clones.
    pub fn new(context: ExecutionContext<O, R>) -> (s: SharedContext<O, R>)
        ensures
            s.context == context,
            s.count == 1,
    {
        SharedContext { context, count: 1 }
    }

    /// Clone one of them; the result is the number of the new one.
    pub fn add_clone(&mut self, of: usize) -> (number: usize)
        requires
            of < old(self).count < usize::MAX,
        ensures
            number == old(self).count,
            final(self).context == old(self).context,
            shared_step(
                old(self).shared(),
                CloneEvent::Cloned { of: of as int },
                final(self).shared(),
            ),
    {
        let number: usize = self.count;
        self.count = self.count + 1;
        number
    }

    /// Hold an owner until the submission completes, through one of them.
    pub fn retain(&mut self, by: usize, owner: O) -> (r: Result<(), DeviceError>)
        requires
            by < old(self).count,
        ensures
            final(self).context.same_place(&old(self).context),
            final(self).context.submission.recorded == old(self).context.submission.recorded,
            shared_step(
                old(self).shared(),
                CloneEvent::Retained { by: by as int, owner, accepted: r is Ok },
                final(self).shared(),
            ),
            r matches Err(e) ==> e@ == submission::already_completed(),
    {
        self.context.retain(owner)
    }

    /// Release the owners, through one of them: the work has finished.
    pub fn complete(&mut self, by: usize)
        requires
            by < old(self).count,
        ensures
            final(self).context.same_place(&old(self).context),
            final(self).context.submission.recorded == old(self).context.submission.recorded,
            shared_step(
                old(self).shared(),
                CloneEvent::Completed { by: by as int },
                final(self).shared(),
            ),
    {
        self.context.complete();
    }
}

/// What the clones share, one after the other, and what is done in between.
pub open spec fn shared_history<O>(states: Seq<SharedV<O>>, events: Seq<CloneEvent<O>>) -> bool {
    &&& states.len() == events.len() + 1
    &&& forall|i: int|
        0 <= i < events.len() ==> shared_step(states[i], #[trigger] events[i], states[i + 1])
}

/// Whether the submission has completed by the first `n` events, through whichever
/// clone.
pub open spec fn completed_by<O>(events: Seq<CloneEvent<O>>, n: int) -> bool {
    exists|i: int| 0 <= i < n && (#[trigger] events[i]) is Completed
}

/// The owners among the first `n` events.
pub open spec fn owners_of<O>(events: Seq<CloneEvent<O>>, n: int) -> Seq<O>
    decreases n,
{
    if n <= 0 {
        seq![]
    } else {
        match events[n - 1] {
            CloneEvent::Retained { owner, .. } => owners_of(events, n - 1).push(owner),
            _ => owners_of(events, n - 1),
        }
    }
}

/// Clones share the submission: until one of them has completed it, every owner that
/// any of them was given is accepted and held, in order, and none is dropped; from
/// then on none holds anything, and each refuses owners.
pub proof fn lemma_clones_share<O>(states: Seq<SharedV<O>>, events: Seq<CloneEvent<O>>, n: int)
    requires
        shared_history(states, events),
        states[0].held is Some,
        0 <= n <= events.len(),
    ensures
        states[n].held == (if completed_by(events, n) {
            None
        } else {
            Some(states[0].held->Some_0 + owners_of(events, n))
        }),
        n < events.len() ==> (events[n] matches CloneEvent::Retained { accepted, .. } ==> accepted
            == !completed_by(events, n)),
    decreases n,
{
    if n > 0 {
        lemma_clones_share(states, events, n - 1);
        let e = events[n - 1];
        assert(shared_step(states[n - 1], e, states[n]));
        assert(completed_by(events, n) == (completed_by(events, n - 1) || e is Completed)) by {
            if completed_by(events, n) && !(e is Completed) {
                let i = choose|i: int| 0 <= i < n && (#[trigger] events[i]) is Completed;
                assert(i < n - 1);
            }
        }
        let s = states[0].held->Some_0;
        match e {
            CloneEvent::Retained { owner, .. } => {
                assert(s + owners_of(events, n - 1).push(owner) =~= (s + owners_of(
                    events,
                    n - 1,
                )).push(owner));
            },
            _ => {},
        }
    } else {
        assert(states[0].held->Some_0 + owners_of(events, 0) =~= states[0].held->Some_0);
    }
    if n < events.len() {
        assert(shared_step(states[n], events[n], states[n + 1]));
    }
}

} // verus!
