//! What travels from a crew to its workers, and what a worker meets with.

use crate::job::{performed, Job};
use vstd::prelude::*;

verus! {

/// What a crew sends to its workers.
pub enum Message<J> {
    /// A job to perform.
    Work(J),
    /// The worker that takes this halts.
    Stop,
}

/// What comes of a worker's attempt to acquire a message.
pub enum Event<J> {
    /// The worker acquired a message.
    Taken(Message<J>),
    /// The worker lost a race to acquire a message.
    Missed,
    /// The worker found nothing to acquire.
    Nothing,
    /// There is nothing left to acquire from.
    Closed,
}

impl<J: Job> Message<J> {
    /// A job inside is ready to be performed.
    pub open spec fn ready(self) -> bool {
        self matches Message::Work(job) ==> job.ready()
    }
}

impl<J> Event<J> {
    /// The event ends a worker's main loop.
    pub open spec fn halts(self) -> bool {
        ||| self matches Event::Taken(Message::Stop)
        ||| self is Closed
    }
}

/// The jobs that a worker acquired, in order.
pub open spec fn acquired<J>(events: Seq<Event<J>>) -> Seq<J>
    decreases events.len(),
{
    if events.len() == 0 {
        Seq::empty()
    } else {
        match events.last() {
            Event::Taken(Message::Work(job)) => acquired(events.drop_last()).push(job),
            _ => acquired(events.drop_last()),
        }
    }
}

/// A point in the course of a worker's main loop.
pub struct Moment {
    /// How many attempts to acquire a message the worker had made by then.
    pub attempts: nat,
    /// Whether the worker kept every other one from acquiring messages then.
    pub exclusive: bool,
}

/// A point between two attempts: `n` were made by then, and every other worker may acquire
/// messages.
pub open spec fn after(n: nat) -> Moment {
    Moment { attempts: n, exclusive: false }
}

/// When a worker performs the jobs that it acquired after the first `n` of the events: each of
/// them after the attempt that acquired it and before the next.
pub open spec fn job_turns<J>(events: Seq<Event<J>>, n: nat) -> Seq<Moment>
    decreases events.len(),
{
    if events.len() <= n {
        Seq::empty()
    } else if events.last() matches Event::Taken(Message::Work(_)) {
        job_turns(events.drop_last(), n).push(after(events.len()))
    } else {
        job_turns(events.drop_last(), n)
    }
}

/// One more event adds its job, if it is one, to those acquired since the first `n` events.
pub proof fn lemma_acquired_push<J>(events: Seq<Event<J>>, n: nat, event: Event<J>)
    requires
        n <= events.len(),
    ensures
        acquired(events.push(event).skip(n as int)) == acquired(events.skip(n as int)) + acquired(
            seq![event],
        ),
{
    reveal_with_fuel(acquired, 2);
    assert(events.push(event).skip(n as int).drop_last() =~= events.skip(n as int));
}

/// What a worker's main loop amounts to, told by the events that the worker had met with
/// `before` it and `after` it: every job that was acquired was performed, and nothing was
/// attempted once an event had ended the loop. A loop that was not ended that way has run for
/// as many turns as its counter can hold.
pub open spec fn served<J: Job>(
    before: Seq<Event<J>>,
    after: Seq<Event<J>>,
    stopped: bool,
) -> bool {
    &&& before.is_prefix_of(after)
    &&& forall|i: int, job: J|
        before.len() <= i < after.len() && #[trigger] after[i] == Event::Taken(
            Message::Work(job),
        ) ==> #[trigger] performed(job)
    &&& forall|i: int| before.len() <= i < after.len() - 1 ==> !(#[trigger] after[i]).halts()
    &&& stopped <==> before.len() < after.len() && after.last().halts()
    &&& !stopped ==> after.len() == before.len() + u64::MAX
}

/// A main loop goes on until the worker takes a `Stop` or finds nothing left to acquire from: it
/// says that it was stopped just where its last attempt came to that, no attempt before the last
/// one did, and it can only return without it after `u64::MAX` attempts. What the worker had met
/// with before stays, and each job that it acquired since went through `perform`.
pub proof fn law_goes_on_until_stopped<J: Job>(
    before: Seq<Event<J>>,
    after: Seq<Event<J>>,
    stopped: bool,
)
    requires
        served(before, after, stopped),
    ensures
        after.len() < before.len() + u64::MAX ==> stopped,
        !stopped ==> after.len() == before.len() + u64::MAX,
        stopped ==> before.len() < after.len() && (after.last() == Event::<J>::Taken(Message::Stop)
            || after.last() == Event::<J>::Closed),
        forall|i: int|
            before.len() <= i < after.len() && (#[trigger] after[i] == Event::<J>::Taken(
                Message::Stop,
            ) || after[i] == Event::<J>::Closed) ==> stopped && i == after.len() - 1,
        forall|i: int| 0 <= i < before.len() ==> #[trigger] after[i] == before[i],
        forall|i: int, job: J|
            before.len() <= i < after.len() && #[trigger] after[i] == Event::Taken(
                Message::Work(job),
            ) ==> #[trigger] call_ensures(J::perform, (job,), ()),
{
    assert forall|i: int| 0 <= i < before.len() implies #[trigger] after[i] == before[i] by {
        assert(before[i] == after[i]);
    }
    assert forall|i: int, job: J|
        before.len() <= i < after.len() && #[trigger] after[i] == Event::Taken(
            Message::Work(job),
        ) implies #[trigger] call_ensures(J::perform, (job,), ()) by {
        assert(performed(job));
    }
}

/// What was acquired over two stretches of events is what was acquired over the first and then
/// over the second.
pub proof fn law_acquired_adds_up<J>(one: Seq<Event<J>>, other: Seq<Event<J>>)
    ensures
        acquired(one + other) == acquired(one) + acquired(other),
    decreases other.len(),
{
    if other.len() == 0 {
        assert(one + other =~= one);
    } else {
        law_acquired_adds_up(one, other.drop_last());
        assert((one + other).drop_last() =~= one + other.drop_last());
    }
}

/// An attempt acquires a job just where it came to one.
pub proof fn law_acquired_at_once<J>(event: Event<J>, job: J)
    ensures
        acquired(Seq::<Event<J>>::empty()) == Seq::<J>::empty(),
        acquired(seq![event]) == seq![job] <==> event == Event::Taken(Message::Work(job)),
        acquired(seq![event]).len() > 0 <==> event matches Event::Taken(Message::Work(_)),
{
    reveal_with_fuel(acquired, 2);
    assert(acquired(seq![event]).len() > 0 ==> acquired(seq![event])[0] == event->0->0);
    if acquired(seq![event]) == seq![job] {
        assert(seq![job][0] == job);
    }
}

/// Each job that a worker acquired is performed after the attempt that acquired it and before
/// the next one, while every other worker may acquire messages: the events since the first `n`
/// have a moment for each job, in order, and the attempt just before it came to that job.
pub proof fn law_jobs_are_performed_in_turn<J>(events: Seq<Event<J>>, n: nat)
    requires
        n <= events.len(),
    ensures
        job_turns(events, n).len() == acquired(events.skip(n as int)).len(),
        forall|k: int|
            0 <= k < job_turns(events, n).len() ==> {
                let moment = #[trigger] job_turns(events, n)[k];
                &&& n < moment.attempts <= events.len()
                &&& !moment.exclusive
                &&& events[moment.attempts - 1] == Event::Taken(
                    Message::Work(acquired(events.skip(n as int))[k]),
                )
            },
        forall|i: int, k: int|
            0 <= i < k < job_turns(events, n).len() ==> (#[trigger] job_turns(
                events,
                n,
            )[i]).attempts < (#[trigger] job_turns(events, n)[k]).attempts,
    decreases events.len(),
{
    if events.len() > n {
        let init = events.drop_last();
        law_jobs_are_performed_in_turn(init, n);
        assert(events.skip(n as int).drop_last() =~= init.skip(n as int));
        assert forall|k: int| 0 <= k < job_turns(events, n).len() implies ({
            let moment = #[trigger] job_turns(events, n)[k];
            &&& n < moment.attempts <= events.len()
            &&& !moment.exclusive
            &&& events[moment.attempts - 1] == Event::Taken(
                Message::Work(acquired(events.skip(n as int))[k]),
            )
        }) by {
            if k < job_turns(init, n).len() {
                assert(job_turns(events, n)[k] == job_turns(init, n)[k]);
            }
        }
        assert forall|i: int, k: int| 0 <= i < k < job_turns(events, n).len() implies (
        #[trigger] job_turns(events, n)[i]).attempts < (#[trigger] job_turns(
            events,
            n,
        )[k]).attempts by {
            assert(job_turns(events, n)[i] == job_turns(init, n)[i]);
            if k < job_turns(init, n).len() {
                assert(job_turns(events, n)[k] == job_turns(init, n)[k]);
            }
        }
    }
}

/// A message may be sent just where the job in it, if there is one, may be performed.
pub proof fn law_messages_are_ready_as_their_jobs<J: Job>(job: J)
    ensures
        Message::Work(job).ready() <==> job.ready(),
        Message::<J>::Stop.ready(),
{
}

} // verus!
