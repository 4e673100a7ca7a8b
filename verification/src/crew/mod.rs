//! Traits that abstract how to send jobs to workers.

use crate::job::{makes_ready, Job};
use crate::message::{acquired, job_turns, served, Event, Message, Moment};
use std::time::Duration;
use vstd::prelude::*;

pub mod channel;
pub mod chase;
pub mod deque;
pub mod ledger;
pub mod line;
pub mod rests;

pub use rests::{Rest, Rests};

verus! {

/// `num_cpus::get` returns the number of CPUs that are available, which depends on the machine
/// and is never zero.
pub assume_specification[ num_cpus::get ]() -> (n: usize)
    ensures
        n >= 1,
;

/// The duration of `n` milliseconds, as `std::time::Duration::from_millis` returns it.
pub uninterp spec fn millis(n: u64) -> Duration;

/// `std::time::Duration::from_millis` returns the duration of that many milliseconds.
pub assume_specification[ Duration::from_millis ](n: u64) -> (duration: Duration)
    ensures
        duration == millis(n),
;

/// The job that `J::from` made of `f` was sent behind everything that was sent `before`.
pub open spec fn gave<J: From<F>, F>(
    f: F,
    before: Seq<Message<J>>,
    after: Seq<Message<J>>,
) -> bool {
    exists|job: J| #[trigger]
        call_ensures(J::from, (f,), job) && after == before.push(Message::Work(job))
}

/// Giving adds one message behind what was sent before, which stays: a job that `J::from` made.
pub proof fn law_giving_sends_one_job<J: From<F>, F>(
    f: F,
    before: Seq<Message<J>>,
    after: Seq<Message<J>>,
)
    requires
        gave::<J, F>(f, before, after),
    ensures
        after.len() == before.len() + 1,
        forall|i: int| 0 <= i < before.len() ==> #[trigger] after[i] == before[i],
        after.last() matches Message::Work(job) && call_ensures(J::from, (f,), job),
{
}

/// Giving a job as it is sends that very job.
pub proof fn law_job_is_given_as_it_is<J: Job>(
    job: J,
    before: Seq<Message<J>>,
    after: Seq<Message<J>>,
)
    requires
        gave::<J, J>(job, before, after),
    ensures
        after == before.push(Message::Work(job)),
{
}

/// A collection of workers that can be given jobs.
pub trait Crew: Sized {
    /// What the workers perform.
    type Job: Job;

    /// The workers.
    type Member: Worker<Job = Self::Job>;

    /// What a crew is made from.
    type Settings: Parameters;

    /// The crew's own invariant.
    spec fn wf(&self) -> bool;

    /// The parameters that the crew was made from.
    spec fn settings(&self) -> Self::Settings;

    /// How many workers have been hired.
    spec fn hired(&self) -> nat;

    /// Everything that has been sent to the workers, oldest first.
    spec fn sent(&self) -> Seq<Message<Self::Job>>;

    /// `member` is as new, and takes its messages from this crew.
    spec fn employs(&self, member: Self::Member) -> bool;

    /// Construct a crew from its parameters.
    fn new(settings: Self::Settings) -> (crew: Self)
        ensures
            crew.wf(),
            crew.settings() == settings,
            crew.hired() == 0,
            crew.sent() == Seq::<Message<Self::Job>>::empty(),
    ;

    /// Construct a new worker.
    fn hire(&mut self) -> (member: Self::Member)
        requires
            old(self).wf(),
            old(self).hired() < usize::MAX,
        ensures
            final(self).wf(),
            final(self).settings() == old(self).settings(),
            final(self).hired() == old(self).hired() + 1,
            final(self).sent() == old(self).sent(),
            final(self).employs(member),
            member.wf(),
            member.id() == old(self).hired(),
            member.heard() == Seq::<Event<Self::Job>>::empty(),
            member.done() == Seq::<Self::Job>::empty(),
            member.turns() == Seq::<Moment>::empty(),
            forall|m: Self::Member| #[trigger] final(self).employs(m) == old(self).employs(m),
    ;

    /// Send a job to the workers.
    fn give<F>(&mut self, job: F) where Self::Job: From<F>
        requires
            old(self).wf(),
            makes_ready::<Self::Job, F>(job),
        ensures
            final(self).wf(),
            final(self).settings() == old(self).settings(),
            final(self).hired() == old(self).hired(),
            gave::<Self::Job, F>(job, old(self).sent(), final(self).sent()),
            forall|m: Self::Member| #[trigger] final(self).employs(m) == old(self).employs(m),
    ;

    /// Tell the workers to stop after completing all outstanding jobs.
    fn stop(&mut self)
        requires
            old(self).wf(),
        ensures
            final(self).wf(),
            final(self).settings() == old(self).settings(),
            final(self).hired() == old(self).hired(),
            final(self).sent() == old(self).sent() + Seq::new(
                old(self).settings().workers() as nat,
                |i: int| Message::Stop,
            ),
            forall|m: Self::Member| #[trigger] final(self).employs(m) == old(self).employs(m),
    ;
}

/// What a worker acquires messages through.
pub trait Attempts {
    /// The point that the worker is at.
    spec fn moment(&self) -> Moment;
}

/// Workers perform jobs in separate threads as part of a crew.
///
/// Each worker is moved into its own thread, which is why they must be `Send`.
pub trait Worker: Send + Sized {
    /// What the worker performs.
    type Job: Job;

    /// The worker's own invariant.
    spec fn wf(&self) -> bool;

    /// The number that the crew gave to the worker.
    spec fn id(&self) -> nat;

    /// Everything that the worker's attempts to acquire a message have come to, oldest first.
    spec fn heard(&self) -> Seq<Event<Self::Job>>;

    /// Every job that the worker has performed, oldest first.
    spec fn done(&self) -> Seq<Self::Job>;

    /// When the worker performed each of these jobs.
    spec fn turns(&self) -> Seq<Moment>;

    /// Execute the worker's main loop.
    ///
    /// Typically, this will look somewhat like:
    ///
    ///   1. Possibly acquire a message.
    ///   2. If successful, perform it.
    ///   3. If error or message is 'stop', break.
    ///
    /// Each crew implements these differently, but all fulfill this contract.
    ///
    /// A job is performed before the next attempt, and every other worker may acquire messages
    /// meanwhile. Between two attempts the worker asks for the rest that it needs, if any. The
    /// loop counts its turns. It returns `true` where it broke as above, and `false` where it ran
    /// for `u64::MAX` turns without that; it may then be executed again.
    fn run<R: Fn(Rest)>(&mut self, rests: &mut Rests<R>) -> (stopped: bool)
        requires
            old(self).wf(),
            forall|r: Rest| call_requires(old(rests).rest(), (r,)),
        ensures
            final(self).wf(),
            final(self).id() == old(self).id(),
            served(old(self).heard(), final(self).heard(), stopped),
            final(self).heard().len() < old(self).heard().len() + u64::MAX ==> stopped,
            stopped ==> final(self).heard().last() == Event::<Self::Job>::Taken(Message::Stop)
                || final(self).heard().last() == Event::<Self::Job>::Closed,
            final(self).done() == old(self).done() + acquired(
                final(self).heard().skip(old(self).heard().len() as int),
            ),
            final(self).turns() == old(self).turns() + job_turns(
                final(self).heard(),
                old(self).heard().len(),
            ),
            final(rests).rest() == old(rests).rest(),
    ;
}

/// Options used to alter the behavior or configuration of a crew.
pub trait Parameters: Copy + Clone {
    /// The number of workers in the crew.
    spec fn workers(&self) -> usize;

    /// The number of workers in the crew.
    fn num_workers(&self) -> (n: usize)
        ensures
            n == self.workers(),
    ;
}

/// A new crew has the settings that it was made from, has hired no one and sent nothing.
pub proof fn law_new_crew_is_idle<C: Crew>(settings: C::Settings, crew: C)
    requires
        call_ensures(C::new, (settings,), crew),
    ensures
        crew.wf(),
        crew.settings() == settings,
        crew.hired() == 0,
        crew.sent().len() == 0,
{
}

/// Hiring adds one worker, with the next number, that has met with nothing and done nothing. It
/// sends nothing, and everyone that the crew employed before is still employed.
pub proof fn law_hiring_adds_a_worker<C: Crew>(crew: &mut C, member: C::Member)
    requires
        call_ensures(C::hire, (crew,), member),
    ensures
        final(crew).wf(),
        member.wf(),
        final(crew).employs(member),
        member.id() == old(crew).hired(),
        member.heard().len() == 0,
        member.done().len() == 0,
        member.turns().len() == 0,
        final(crew).hired() == old(crew).hired() + 1,
        final(crew).sent() == old(crew).sent(),
        final(crew).settings() == old(crew).settings(),
        forall|m: C::Member| #[trigger] old(crew).employs(m) <==> final(crew).employs(m),
{
}

/// Telling a crew to stop adds a `Stop` for each of its workers behind all that was sent before,
/// which stays.
pub proof fn law_stopping_stops_each_worker<C: Crew>(crew: &mut C)
    requires
        call_ensures(C::stop, (crew,), ()),
    ensures
        final(crew).wf(),
        final(crew).sent().len() == old(crew).sent().len() + old(crew).settings().workers(),
        forall|i: int|
            0 <= i < final(crew).sent().len() ==> #[trigger] final(crew).sent()[i] == (if i < old(
                crew,
            ).sent().len() {
                old(crew).sent()[i]
            } else {
                Message::Stop
            }),
        final(crew).settings() == old(crew).settings(),
        final(crew).hired() == old(crew).hired(),
        forall|m: C::Member| #[trigger] old(crew).employs(m) <==> final(crew).employs(m),
{
}

/// A crew can be made from any settings, and a sound crew can always be told to stop and, as long
/// as its numbers last, hire another worker.
pub proof fn law_crews_are_at_hand<C: Crew>(settings: C::Settings, crew: &mut C)
    ensures
        call_requires(C::new, (settings,)),
        old(crew).wf() && old(crew).hired() < usize::MAX ==> call_requires(C::hire, (crew,)),
        old(crew).wf() ==> call_requires(C::stop, (crew,)),
{
}

} // verus!
