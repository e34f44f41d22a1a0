//! Operations that are executed at most once, for several consumers.
//!
//! The first consumer runs the operation; others wait until it has settled,
//! order their stream behind the one that produced the value, and take it.
use vstd::prelude::*;
use crate::device::error::{internal, DeviceError, DeviceErrorV};
use crate::device::submission::leak;
use crate::text::joined;

verus! {

/// Where an operation stands that is executed at most once.
pub enum OnceState<Op, Out> {
    /// Not executed yet.
    Pending(Op),
    /// Executing, on this thread.
    Running { thread: u64 },
    /// Executed; the value was produced on this stream, where that is known.
    Done { value: Out, producer: Option<u64> },
    /// It failed.
    Failed(DeviceError),
}

/// What a consumer does next.
pub enum OnceAction<Op> {
    /// Run the operation, and settle it.
    Run(Op),
    /// Wait until it has settled, and enter again.
    Wait,
    /// Take the value.
    Take,
    /// Give up.
    Refuse(DeviceError),
}

/// Where an operation stands, with errors by their contents.
#[verifier::ext_equal]
pub enum OnceStateV<Op, Out> {
    Pending(Op),
    Running { thread: u64 },
    Done { value: Out, producer: Option<u64> },
    Failed(DeviceErrorV),
}

impl<Op, Out> View for OnceState<Op, Out> {
    type V = OnceStateV<Op, Out>;

    open spec fn view(&self) -> OnceStateV<Op, Out> {
        match *self {
            OnceState::Pending(op) => OnceStateV::Pending(op),
            OnceState::Running { thread } => OnceStateV::Running { thread },
            OnceState::Done { value, producer } => OnceStateV::Done { value, producer },
            OnceState::Failed(e) => OnceStateV::Failed(e@),
        }
    }
}

/// What a consumer does next, with errors by their contents.
#[verifier::ext_equal]
pub enum OnceActionV<Op> {
    Run(Op),
    Wait,
    Take,
    Refuse(DeviceErrorV),
}

impl<Op> View for OnceAction<Op> {
    type V = OnceActionV<Op>;

    open spec fn view(&self) -> OnceActionV<Op> {
        match *self {
            OnceAction::Run(op) => OnceActionV::Run(op),
            OnceAction::Wait => OnceActionV::Wait,
            OnceAction::Take => OnceActionV::Take,
            OnceAction::Refuse(e) => OnceActionV::Refuse(e@),
        }
    }
}

/// What happens to an operation that is executed at most once.
#[verifier::ext_equal]
pub enum OnceEvent<Op, Out> {
    /// A consumer on this thread asks for the value, and is told what to do.
    Entered { thread: u64, told: OnceActionV<Op> },
    /// The operation has produced a value, and the stream on which its event was
    /// recorded, if it was, is known.
    Produced { value: Out, recorded: Result<u64, DeviceErrorV> },
    /// The operation has failed.
    Broken(DeviceErrorV),
    /// The execution did not return.
    Unwound,
}

/// What an event makes of a state. Nothing but a consumer meets a state in which
/// nothing executes.
pub open spec fn happened<Op, Out>(
    before: OnceStateV<Op, Out>,
    event: OnceEvent<Op, Out>,
    after: OnceStateV<Op, Out>,
) -> bool {
    match event {
        OnceEvent::Entered { thread, told } => match before {
            OnceStateV::Pending(op) => told == OnceActionV::Run(op) && after == (
            OnceStateV::<Op, Out>::Running { thread }),
            OnceStateV::Running { thread: t } => after == before && told == (if t == thread {
                OnceActionV::<Op>::Refuse(reentered())
            } else {
                OnceActionV::<Op>::Wait
            }),
            OnceStateV::Done { .. } => after == before && told == OnceActionV::<Op>::Take,
            OnceStateV::Failed(e) => after == before && told == OnceActionV::<Op>::Refuse(e),
        },
        OnceEvent::Produced { value, recorded } => before is Running && after == (match recorded {
            Ok(stream) => OnceStateV::<Op, Out>::Done { value, producer: Some(stream) },
            Err(e) => OnceStateV::<Op, Out>::Failed(e),
        }),
        OnceEvent::Broken(e) => before is Running && after == OnceStateV::<Op, Out>::Failed(e),
        OnceEvent::Unwound => before is Running && after == OnceStateV::<Op, Out>::Failed(
            panicked(),
        ),
    }
}

/// An operation that is executed at most once.
pub struct ExecuteOnce<Op, Out> {
    pub state: OnceState<Op, Out>,
}

/// Why an operation may not execute itself.
pub open spec fn reentered() -> DeviceErrorV {
    DeviceErrorV::Internal(
        "execute-once operation re-entered from inside its own execution (a shared or unzipped op executing itself)"@,
    )
}

/// What consumers learn of an execution that did not return.
pub open spec fn panicked() -> DeviceErrorV {
    DeviceErrorV::Internal("execute-once operation panicked while executing"@)
}

impl<Op, Out> ExecuteOnce<Op, Out> {
    /// How far the operation has come: not executed, executing, settled.
    pub open spec fn progress(&self) -> int {
        match self.state {
            OnceState::Pending(_) => 0,
            OnceState::Running { .. } => 1,
            _ => 2,
        }
    }

    /// An operation that has not been executed.
    pub fn pending(op: Op) -> (o: ExecuteOnce<Op, Out>)
        ensures
            o.state == OnceState::<Op, Out>::Pending(op),
    {
        ExecuteOnce { state: OnceState::Pending(op) }
    }

    /// An operation whose value is there already.
    pub fn done(value: Out) -> (o: ExecuteOnce<Op, Out>)
        ensures
            o.state == (OnceState::<Op, Out>::Done { value, producer: None }),
    {
        ExecuteOnce { state: OnceState::Done { value, producer: None } }
    }

    /// A consumer on `thread` asks for the value. Only the first is given the
    /// operation.
    pub fn enter(&mut self, thread: u64) -> (a: OnceAction<Op>)
        ensures
            happened(
                old(self).state@,
                OnceEvent::Entered { thread, told: a@ },
                final(self).state@,
            ),
            final(self).progress() >= old(self).progress(),
            a is Run <==> old(self).progress() == 0,
            match old(self).state {
                OnceState::Pending(op) => a == OnceAction::Run(op) && final(self).state == (
                OnceState::<Op, Out>::Running { thread }),
                OnceState::Running { thread: t } => *final(self) == *old(self) && if t == thread {
                    a is Refuse && a->Refuse_0@ == reentered()
                } else {
                    a is Wait
                },
                OnceState::Done { .. } => a is Take && *final(self) == *old(self),
                OnceState::Failed(e) => a is Refuse && a->Refuse_0@ == e@ && *final(self) == *old(
                    self,
                ),
            },
    {
        let mut state = OnceState::Running { thread };
        std::mem::swap(&mut state, &mut self.state);
        match state {
            OnceState::Pending(op) => OnceAction::Run(op),
            OnceState::Running { thread: t } => {
                self.state = OnceState::Running { thread: t };
                if t == thread {
                    OnceAction::Refuse(
                        internal(
                            "execute-once operation re-entered from inside its own execution (a shared or unzipped op executing itself)",
                        ),
                    )
                } else {
                    OnceAction::Wait
                }
            },
            OnceState::Done { value, producer } => {
                self.state = OnceState::Done { value, producer };
                OnceAction::Take
            },
            OnceState::Failed(e) => {
                let copy = e.duplicate();
                self.state = OnceState::Failed(e);
                OnceAction::Refuse(copy)
            },
        }
    }

    /// The operation has produced a value; `recorded` is the stream on which
    /// its event was recorded. Without that event no other stream could be
    /// ordered behind the work, which may still write to what the value owns:
    /// the value is leaked, and the operation has failed. The result says
    /// whether that is so.
    pub fn settle_done(&mut self, value: Out, recorded: Result<u64, DeviceError>) -> (leaked: bool)
        requires
            old(self).progress() == 1,
        ensures
            happened(
                old(self).state@,
                OnceEvent::Produced {
                    value,
                    recorded: match recorded {
                        Ok(stream) => Ok::<u64, DeviceErrorV>(stream),
                        Err(e) => Err(e@),
                    },
                },
                final(self).state@,
            ),
            final(self).progress() == 2,
            match recorded {
                Ok(stream) => !leaked && final(self).state == (OnceState::<Op, Out>::Done {
                    value,
                    producer: Some(stream),
                }),
                Err(e) => leaked && final(self).state == OnceState::<Op, Out>::Failed(e),
            },
    {
        match recorded {
            Ok(stream) => {
                self.state = OnceState::Done { value, producer: Some(stream) };
                false
            },
            Err(e) => {
                leak(value);
                self.state = OnceState::Failed(e);
                true
            },
        }
    }

    /// The operation has failed.
    pub fn settle_failed(&mut self, error: DeviceError)
        requires
            old(self).progress() == 1,
        ensures
            happened(old(self).state@, OnceEvent::Broken(error@), final(self).state@),
            final(self).state == OnceState::<Op, Out>::Failed(error),
    {
        self.state = OnceState::Failed(error);
    }

    /// The execution did not return: those who wait are released.
    pub fn settle_on_unwind(&mut self)
        requires
            old(self).progress() == 1,
        ensures
            happened(old(self).state@, OnceEvent::Unwound, final(self).state@),
            final(self).state is Failed,
            final(self).state->Failed_0@ == panicked(),
    {
        self.state = OnceState::Failed(internal("execute-once operation panicked while executing"));
    }

    /// Whether a consumer on this stream has to be ordered behind the stream
    /// that produced the value.
    pub fn must_join(&self, consumer: u64) -> (b: bool)
        ensures
            b == (match self.state {
                OnceState::Done { producer: Some(p), .. } => p != consumer,
                _ => false,
            }),
    {
        match &self.state {
            OnceState::Done { producer, .. } => match producer {
                Some(p) => *p != consumer,
                None => false,
            },
            _ => false,
        }
    }
}

// ---------------------------------------------------------------------------
// Any number of consumers
// ---------------------------------------------------------------------------

/// States one after the other, and the events between them, whoever causes them.
pub open spec fn history<Op, Out>(
    states: Seq<OnceStateV<Op, Out>>,
    events: Seq<OnceEvent<Op, Out>>,
) -> bool {
    &&& states.len() == events.len() + 1
    &&& forall|i: int|
        0 <= i < events.len() ==> happened(states[i], #[trigger] events[i], states[i + 1])
}

/// Nothing changes any more.
pub open spec fn settled<Op, Out>(s: OnceStateV<Op, Out>) -> bool {
    s is Done || s is Failed
}

/// A consumer is told to run the operation.
pub open spec fn runs<Op, Out>(e: OnceEvent<Op, Out>) -> bool {
    e matches OnceEvent::Entered { told: OnceActionV::Run(_), .. }
}

/// The operation settles.
pub open spec fn settles<Op, Out>(e: OnceEvent<Op, Out>) -> bool {
    !(e is Entered)
}

/// At this place the operation has produced a value on a stream.
pub open spec fn produced_at<Op, Out>(
    events: Seq<OnceEvent<Op, Out>>,
    i: int,
    v: Out,
    p: u64,
) -> bool {
    events[i] == (OnceEvent::<Op, Out>::Produced { value: v, recorded: Ok(p) })
}

proof fn lemma_stays<Op, Out>(
    states: Seq<OnceStateV<Op, Out>>,
    events: Seq<OnceEvent<Op, Out>>,
    i: int,
    j: int,
)
    requires
        history(states, events),
        0 <= i <= j < states.len(),
    ensures
        settled(states[i]) ==> states[j] == states[i],
        !(states[i] is Pending) ==> !(states[j] is Pending),
    decreases j - i,
{
    if i < j {
        lemma_stays(states, events, i, j - 1);
        assert(happened(states[j - 1], events[j - 1], states[j]));
    }
}

/// However many consumers ask, on whatever threads and in whatever order: the first
/// is the only one who is told to run the operation, and it settles at most once.
pub proof fn lemma_runs_once<Op, Out>(
    op: Op,
    states: Seq<OnceStateV<Op, Out>>,
    events: Seq<OnceEvent<Op, Out>>,
)
    requires
        history(states, events),
        states[0] == OnceStateV::<Op, Out>::Pending(op),
    ensures
        events.len() > 0 ==> (events[0] matches OnceEvent::Entered { told, .. } && told
            == OnceActionV::Run(op)),
        forall|i: int| 0 < i < events.len() ==> !runs(#[trigger] events[i]),
        forall|i: int, j: int|
            0 <= i < j < events.len() && settles(#[trigger] events[i]) ==> !settles(
                #[trigger] events[j],
            ),
{
    if events.len() > 0 {
        assert(happened(states[0], events[0], states[1]));
    }
    assert forall|i: int| 0 < i < events.len() implies !runs(#[trigger] events[i]) by {
        lemma_stays(states, events, 1, i);
        assert(happened(states[i], events[i], states[i + 1]));
    }
    assert forall|i: int, j: int|
        0 <= i < j < events.len() && settles(#[trigger] events[i]) implies !settles(
        #[trigger] events[j],
    ) by {
        assert(happened(states[i], events[i], states[i + 1]));
        lemma_stays(states, events, i + 1, j);
        assert(happened(states[j], events[j], states[j + 1]));
    }
}

/// However many consumers ask: whoever is told to take the value finds the one that
/// the operation produced, on the stream on which its event was recorded, and whoever
/// is refused gets the one error with which it settled, or is the operation executing
/// itself.
pub proof fn lemma_one_outcome<Op, Out>(
    op: Op,
    states: Seq<OnceStateV<Op, Out>>,
    events: Seq<OnceEvent<Op, Out>>,
    j: int,
)
    requires
        history(states, events),
        states[0] == OnceStateV::<Op, Out>::Pending(op),
        0 <= j < events.len(),
    ensures
        events[j] matches OnceEvent::Entered { thread, told } ==> match told {
            OnceActionV::Run(x) => j == 0 && x == op,
            OnceActionV::Wait => states[j] matches OnceStateV::Running { thread: t } && t != thread,
            OnceActionV::Take => states.last() == states[j] && exists|i: int, v: Out, p: u64|
                0 <= i < j && #[trigger] produced_at(events, i, v, p) && states[j] == (
                OnceStateV::<Op, Out>::Done { value: v, producer: Some(p) }),
            OnceActionV::Refuse(e) => {
                ||| states[j] == (OnceStateV::<Op, Out>::Running { thread }) && e == reentered()
                ||| states[j] == OnceStateV::<Op, Out>::Failed(e) && states.last() == states[j]
            },
        },
        forall|i: int|
            0 <= i < j && events[j] is Entered ==> match #[trigger] events[i] {
                OnceEvent::Entered { .. } => true,
                OnceEvent::Produced { recorded: Ok(_), .. } => events[j]->told
                    == OnceActionV::<Op>::Take,
                OnceEvent::Produced { recorded: Err(e), .. } => events[j]->told
                    == OnceActionV::<Op>::Refuse(e),
                OnceEvent::Broken(e) => events[j]->told == OnceActionV::<Op>::Refuse(e),
                OnceEvent::Unwound => events[j]->told == OnceActionV::<Op>::Refuse(panicked()),
            },
{
    let n = events.len() as int;
    assert(happened(states[j], events[j], states[j + 1]));
    lemma_stays(states, events, j, n);
    assert(states.last() == states[n]);
    if j > 0 {
        assert(happened(states[0], events[0], states[1]));
        lemma_stays(states, events, 1, j);
    }
    if states[j] is Done {
        lemma_produced(op, states, events, j);
    }
    assert forall|i: int| 0 <= i < j && events[j] is Entered implies match #[trigger] events[i] {
        OnceEvent::Entered { .. } => true,
        OnceEvent::Produced { recorded: Ok(_), .. } => events[j]->told == OnceActionV::<Op>::Take,
        OnceEvent::Produced { recorded: Err(e), .. } => events[j]->told
            == OnceActionV::<Op>::Refuse(e),
        OnceEvent::Broken(e) => events[j]->told == OnceActionV::<Op>::Refuse(e),
        OnceEvent::Unwound => events[j]->told == OnceActionV::<Op>::Refuse(panicked()),
    } by {
        assert(happened(states[i], events[i], states[i + 1]));
        lemma_stays(states, events, i + 1, j);
    }
}

/// A value that is there was produced.
proof fn lemma_produced<Op, Out>(
    op: Op,
    states: Seq<OnceStateV<Op, Out>>,
    events: Seq<OnceEvent<Op, Out>>,
    j: int,
)
    requires
        history(states, events),
        states[0] == OnceStateV::<Op, Out>::Pending(op),
        0 <= j < states.len(),
        states[j] is Done,
    ensures
        exists|i: int, v: Out, p: u64|
            0 <= i < j && #[trigger] produced_at(events, i, v, p) && states[j] == (
            OnceStateV::<Op, Out>::Done { value: v, producer: Some(p) }),
    decreases j,
{
    assert(happened(states[j - 1], events[j - 1], states[j]));
    if states[j - 1] is Done {
        lemma_produced(op, states, events, j - 1);
    } else {
        match events[j - 1] {
            OnceEvent::Produced { value, recorded: Ok(p) } => {
                assert(produced_at(events, j - 1, value, p));
            },
            _ => {},
        }
    }
}

/// What is reported of a value that was leaked because its event could not be
/// recorded, given the error in words.
pub fn leak_report(error: &str) -> (r: String)
    ensures
        r@ == "cuda-async: leaking a memoized result after its completion event could not be recorded: "@
            + error@,
{
    joined(
        "cuda-async: leaking a memoized result after its completion event could not be recorded: ",
        error,
    )
}

/// Why half of a pair is not there.
pub open spec fn already_taken(side: Seq<char>) -> DeviceErrorV {
    DeviceErrorV::Internal("unzip: the "@ + side + " result was already taken"@)
}

/// An operation whose two results go to two consumers.
pub struct Select<T1, T2, DI> {
    pub once: ExecuteOnce<DI, (Option<T1>, Option<T2>)>,
}

fn taken(side: &str) -> (e: DeviceError)
    ensures
        e@ == already_taken(side@),
{
    let t = joined("unzip: the ", side);
    DeviceError::Internal(joined(t.as_str(), " result was already taken"))
}

impl<T1, T2, DI> Select<T1, T2, DI> {
    /// A pair that has not been computed.
    pub fn new(input: DI) -> (s: Select<T1, T2, DI>)
        ensures
            s.once.state == OnceState::<DI, (Option<T1>, Option<T2>)>::Pending(input),
    {
        Select { once: ExecuteOnce::pending(input) }
    }

    /// The results, where the operation has settled well.
    pub open spec fn halves(&self) -> Option<(Option<T1>, Option<T2>)> {
        match self.once.state {
            OnceState::Done { value, .. } => Some(value),
            _ => None,
        }
    }

    /// The stream on which the results were produced, where that is known.
    pub open spec fn producer(&self) -> Option<u64> {
        match self.once.state {
            OnceState::Done { producer, .. } => producer,
            _ => None,
        }
    }

    /// Take the left result, once.
    pub fn take_left(&mut self) -> (r: Result<T1, DeviceError>)
        requires
            old(self).halves() is Some,
        ensures
            final(self).halves() == Some((None::<T1>, old(self).halves()->Some_0.1)),
            final(self).producer() == old(self).producer(),
            match old(self).halves()->Some_0.0 {
                Some(x) => r == Ok::<T1, DeviceError>(x),
                None => r is Err && r->Err_0@ == already_taken("left"@),
            },
    {
        let mut state = OnceState::Running { thread: 0 };
        std::mem::swap(&mut state, &mut self.once.state);
        match state {
            OnceState::Done { value, producer } => {
                self.once.state = OnceState::Done { value: (None, value.1), producer };
                match value.0 {
                    Some(x) => Ok(x),
                    None => Err(taken("left")),
                }
            },
            _ => Err(taken("left")),
        }
    }

    /// Take the right result, once.
    pub fn take_right(&mut self) -> (r: Result<T2, DeviceError>)
        requires
            old(self).halves() is Some,
        ensures
            final(self).halves() == Some((old(self).halves()->Some_0.0, None::<T2>)),
            final(self).producer() == old(self).producer(),
            match old(self).halves()->Some_0.1 {
                Some(x) => r == Ok::<T2, DeviceError>(x),
                None => r is Err && r->Err_0@ == already_taken("right"@),
            },
    {
        let mut state = OnceState::Running { thread: 0 };
        std::mem::swap(&mut state, &mut self.once.state);
        match state {
            OnceState::Done { value, producer } => {
                self.once.state = OnceState::Done { value: (value.0, None), producer };
                match value.1 {
                    Some(x) => Ok(x),
                    None => Err(taken("right")),
                }
            },
            _ => Err(taken("right")),
        }
    }
}

} // verus!
