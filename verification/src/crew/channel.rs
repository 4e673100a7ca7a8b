//! A crew that uses `std::sync::mpsc`.

use crate::crew::ledger::Ledger;
use crate::crew::line::{enclosed, joined, open, Inbox, Outbox, Source};
use crate::crew::{Crew, Parameters, Rest, Rests, Worker};
use crate::job::{performed, Job};
use crate::message::{
    acquired, after, job_turns, law_goes_on_until_stopped, lemma_acquired_push, served, Event,
    Message, Moment,
};
use std::sync::mpsc;
use std::sync::{Arc, Mutex};
use vstd::prelude::*;

verus! {

/// The `Crew` `Member` for `Channel`.
#[verifier::reject_recursive_types(J)]
pub struct ChannelWorker<J> {
    id: usize,
    inbox: Inbox<J>,
    ledger: Ledger<J>,
}

impl<J> ChannelWorker<J> {
    /// The receiver that the worker shares with the rest of the crew.
    pub closed spec fn receiver(&self) -> Arc<Mutex<mpsc::Receiver<Message<J>>>> {
        self.inbox.receiver()
    }
}

impl<J: Job> ChannelWorker<J> {
    /// The worker just successfully acquired an item. A panic of the job is passed on.
    pub fn does(&mut self, job: J)
        requires
            old(self).wf(),
            job.ready(),
        ensures
            final(self).wf(),
            performed(job),
            final(self).done() == old(self).done().push(job),
            final(self).turns() == old(self).turns().push(after(old(self).heard().len())),
            final(self).id() == old(self).id(),
            final(self).receiver() == old(self).receiver(),
            final(self).heard() == old(self).heard(),
    {
        self.ledger.perform(job, &self.inbox);
    }

    /// Act on what came of an attempt to acquire a message. The result tells whether the worker
    /// carries on.
    pub fn react(&mut self, event: Event<J>) -> (going: bool)
        requires
            old(self).wf(),
            event matches Event::Taken(message) ==> message.ready(),
        ensures
            final(self).wf(),
            going == (event matches Event::Taken(Message::Work(_))),
            event matches Event::Taken(Message::Work(job)) ==> performed(job),
            final(self).done() == old(self).done() + acquired(seq![event]),
            final(self).turns() == (if event matches Event::Taken(Message::Work(_)) {
                old(self).turns().push(after(old(self).heard().len()))
            } else {
                old(self).turns()
            }),
            final(self).id() == old(self).id(),
            final(self).receiver() == old(self).receiver(),
            final(self).heard() == old(self).heard(),
    {
        proof {
            reveal_with_fuel(acquired, 2);
        }
        match event {
            Event::Taken(Message::Work(job)) => {
                self.does(job);
                true
            },
            _ => false,
        }
    }

    /// Wait for a message while no other thread does, and let the others wait again.
    fn receive(&mut self) -> (event: Event<J>)
        requires
            old(self).wf(),
        ensures
            final(self).wf(),
            event is Taken || event is Closed,
            event matches Event::Taken(message) ==> message.ready(),
            final(self).heard() == old(self).heard().push(event),
            final(self).done() == old(self).done(),
            final(self).turns() == old(self).turns(),
            final(self).id() == old(self).id(),
            final(self).receiver() == old(self).receiver(),
    {
        let receiver = self.inbox.share();
        let access = self.inbox.enter(&receiver);
        let message = self.inbox.recv(&access);
        self.inbox.leave(access);
        match message {
            Some(message) => Event::Taken(message),
            None => Event::Closed,
        }
    }
}

impl<J: Job> Worker for ChannelWorker<J> {
    type Job = J;

    /// The worker does not keep the others from receiving.
    closed spec fn wf(&self) -> bool {
        &&& enclosed(self.inbox.receiver())
        &&& !self.inbox.has_access()
    }

    closed spec fn id(&self) -> nat {
        self.id as nat
    }

    closed spec fn heard(&self) -> Seq<Event<J>> {
        self.inbox.log()
    }

    closed spec fn done(&self) -> Seq<J> {
        self.ledger.done()
    }

    closed spec fn turns(&self) -> Seq<Moment> {
        self.ledger.turns()
    }

    fn run<R: Fn(Rest)>(&mut self, rests: &mut Rests<R>) -> (stopped: bool)
        ensures
            final(self).receiver() == old(self).receiver(),
            forall|i: int|
                old(self).heard().len() <= i < final(self).heard().len() ==> {
                    ||| #[trigger] final(self).heard()[i] is Taken
                    ||| final(self).heard()[i] is Closed
                },
            *final(rests) == *old(rests),
    {
        let ghost before = self.heard();
        let mut left: u64 = u64::MAX;
        while left > 0
            invariant
                before == old(self).heard(),
                self.wf(),
                self.id() == old(self).id(),
                self.receiver() == old(self).receiver(),
                *rests == *old(rests),
                before.is_prefix_of(self.heard()),
                self.heard().len() == before.len() + (u64::MAX - left),
                forall|i: int, job: J|
                    before.len() <= i < self.heard().len() && #[trigger] self.heard()[i]
                        == Event::Taken(Message::Work(job)) ==> #[trigger] performed(job),
                forall|i: int|
                    before.len() <= i < self.heard().len() ==> !(
                    #[trigger] self.heard()[i]).halts() && self.heard()[i] is Taken,
                self.done() == old(self).done() + acquired(self.heard().skip(before.len() as int)),
                self.turns() == old(self).turns() + job_turns(self.heard(), before.len()),
            decreases left,
        {
            left -= 1;
            let ghost earlier = self.heard();
            let event = self.receive();
            let going = self.react(event);
            proof {
                assert(self.heard().drop_last() =~= earlier);
                lemma_acquired_push(earlier, before.len(), event);
            }
            if !going {
                return true;
            }
        }
        false
    }
}

impl<J: Job> ChannelWorker<J> {
    /// Execute the worker's main loop with this function to spend its rests. The outcome tells
    /// whether the loop was stopped, and which rests it asked for.
    pub fn serve<R: Fn(Rest)>(&mut self, rest: R) -> (outcome: (bool, Rests<R>))
        requires
            old(self).wf(),
            forall|r: Rest| call_requires(rest, (r,)),
        ensures
            final(self).wf(),
            final(self).id() == old(self).id(),
            served(old(self).heard(), final(self).heard(), outcome.0),
            final(self).done() == old(self).done() + acquired(
                final(self).heard().skip(old(self).heard().len() as int),
            ),
            final(self).turns() == old(self).turns() + job_turns(
                final(self).heard(),
                old(self).heard().len(),
            ),
            outcome.1.rest() == rest,
            final(self).receiver() == old(self).receiver(),
            forall|i: int|
                old(self).heard().len() <= i < final(self).heard().len() ==> {
                    ||| #[trigger] final(self).heard()[i] is Taken
                    ||| final(self).heard()[i] is Closed
                },
            outcome.1.asked() == Seq::<Rest>::empty(),
            outcome.1.turns() == Seq::<Moment>::empty(),
    {
        let mut rests = Rests::new(rest);
        let stopped = self.run(&mut rests);
        (stopped, rests)
    }
}

/// Parameters to adjust the size of the crew.
#[derive(Copy, Clone)]
pub struct Options {
    /// The number of workers to create in the pool.
    pub num_workers: usize,
}

impl Parameters for Options {
    open spec fn workers(&self) -> usize {
        self.num_workers
    }

    fn num_workers(&self) -> usize {
        self.num_workers
    }
}

impl Default for Options {
    fn default() -> (options: Options)
        ensures
            call_ensures(num_cpus::get, (), options.num_workers),
            options.num_workers >= 1,
    {
        Options { num_workers: num_cpus::get() }
    }
}

/// A `Crew` that uses a shared, mutex-wrapped receiver.
#[verifier::reject_recursive_types(J)]
pub struct Channel<J> {
    next_id: usize,
    options: Options,
    sender: Outbox<J>,
    source: Source<J>,
}

impl<J> Channel<J> {
    /// The receiver that the workers share.
    pub closed spec fn receiver(&self) -> Arc<Mutex<mpsc::Receiver<Message<J>>>> {
        self.source.receiver()
    }
}

impl<J: Job> Crew for Channel<J> {
    type Job = J;

    type Member = ChannelWorker<J>;

    type Settings = Options;

    /// The two ends are those of one channel, and no inbox was opened but for the workers.
    closed spec fn wf(&self) -> bool {
        &&& joined(self.sender.sender(), self.source.receiver())
        &&& enclosed(self.source.receiver())
        &&& self.source.opened() == self.next_id
    }

    closed spec fn settings(&self) -> Options {
        self.options
    }

    closed spec fn hired(&self) -> nat {
        self.next_id as nat
    }

    closed spec fn sent(&self) -> Seq<Message<J>> {
        self.sender.log()
    }

    open spec fn employs(&self, member: ChannelWorker<J>) -> bool {
        member.receiver() == self.receiver()
    }

    fn new(options: Options) -> (crew: Channel<J>) {
        let (sender, source) = open();
        Channel { next_id: 0, options: options, sender: sender, source: source }
    }

    fn hire(&mut self) -> (member: ChannelWorker<J>) {
        let id = self.next_id;
        self.next_id += 1;
        ChannelWorker { id: id, inbox: self.source.inbox(), ledger: Ledger::new() }
    }

    fn give<F>(&mut self, f: F) where J: From<F> {
        self.sender.send(Message::Work(J::from(f)), &self.source);
    }

    fn stop(&mut self) {
        let n = self.options.num_workers;
        for i in 0..n
            invariant
                self.wf(),
                n == self.options.num_workers,
                self.options == old(self).options,
                self.next_id == old(self).next_id,
                self.source == old(self).source,
                self.sent() == old(self).sent() + Seq::new(i as nat, |k: int| Message::Stop),
        {
            self.sender.send(Message::Stop, &self.source);
        }
    }
}

/// A worker carries on after a job and after nothing else. The job went through `perform` and is
/// entered in its record, and nothing else is. All else stays.
pub proof fn law_reaction_goes_by_the_event<J: Job>(
    worker: &mut ChannelWorker<J>,
    event: Event<J>,
    going: bool,
)
    requires
        call_ensures(ChannelWorker::<J>::react, (worker, event), going),
    ensures
        going <==> event matches Event::Taken(Message::Work(_)),
        event matches Event::Taken(Message::Work(job)) ==> {
            &&& call_ensures(J::perform, (job,), ())
            &&& final(worker).done() == old(worker).done().push(job)
            &&& final(worker).turns().len() == old(worker).turns().len() + 1
            &&& final(worker).turns().last().attempts == old(worker).heard().len()
            &&& !final(worker).turns().last().exclusive
        },
        !going ==> final(worker).done() == old(worker).done() && final(worker).turns() == old(
            worker,
        ).turns(),
        final(worker).id() == old(worker).id(),
        final(worker).receiver() == old(worker).receiver(),
        final(worker).heard() == old(worker).heard(),
{
    reveal_with_fuel(acquired, 2);
}

/// Doing a job calls its `perform` and enters it in the record.
pub proof fn law_doing_performs<J: Job>(worker: &mut ChannelWorker<J>, job: J)
    requires
        call_ensures(ChannelWorker::<J>::does, (worker, job), ()),
    ensures
        call_ensures(J::perform, (job,), ()),
        final(worker).done() == old(worker).done().push(job),
        final(worker).receiver() == old(worker).receiver(),
        final(worker).heard() == old(worker).heard(),
{
}

/// Whoever a crew employs shares the crew's own receiver.
pub proof fn law_employed_share_the_receiver<J: Job>(crew: &Channel<J>, member: ChannelWorker<J>)
    requires
        crew.employs(member),
    ensures
        member.receiver() == crew.receiver(),
{
}

/// Everyone that a crew hires shares the receiver that the crew has, before and after, and bears
/// the number of workers hired before. Hiring sends nothing.
pub proof fn law_hired_share_the_receiver<J: Job>(crew: &mut Channel<J>, member: ChannelWorker<J>)
    requires
        call_ensures(<Channel<J> as Crew>::hire, (crew,), member),
    ensures
        member.receiver() == old(crew).receiver(),
        final(crew).receiver() == old(crew).receiver(),
        member.id() == old(crew).hired(),
        member.heard().len() == 0,
        member.done().len() == 0,
        final(crew).hired() == old(crew).hired() + 1,
        final(crew).sent() == old(crew).sent(),
        final(crew).settings() == old(crew).settings(),
{
    assert(final(crew).employs(member));
    assert(old(crew).employs(member));
}

/// Telling a crew to stop sends one `Stop` for each of the workers that its options ask for,
/// behind all that was sent before.
pub proof fn law_channel_stops_each_worker<J: Job>(crew: &mut Channel<J>)
    requires
        call_ensures(<Channel<J> as Crew>::stop, (crew,), ()),
    ensures
        final(crew).sent().len() == old(crew).sent().len() + old(crew).settings().num_workers,
        forall|i: int|
            0 <= i < final(crew).sent().len() ==> #[trigger] final(crew).sent()[i] == (if i < old(
                crew,
            ).sent().len() {
                old(crew).sent()[i]
            } else {
                Message::Stop
            }),
        final(crew).settings() == old(crew).settings(),
        final(crew).hired() == old(crew).hired(),
{
}

/// The number of workers is the one in the options.
pub proof fn law_channel_has_as_many_workers_as_asked(options: Options, n: usize)
    ensures
        options.workers() == options.num_workers,
        call_ensures(<Options as Parameters>::num_workers, (&options,), n) ==> n
            == options.num_workers,
{
}

/// What a worker tells of itself is what it holds: it hears what its inbox records, has done
/// what its ledger records, and receives where its inbox does. A sound worker has no access to
/// the receiver while it does not receive.
proof fn law_worker_tells_what_it_holds<J: Job>(worker: ChannelWorker<J>)
    ensures
        worker.id() == worker.id,
        worker.receiver() == worker.inbox.receiver(),
        worker.heard() == worker.inbox.log(),
        worker.done() == worker.ledger.done(),
        worker.turns() == worker.ledger.turns(),
        worker.wf() ==> !worker.inbox.has_access(),
{
}

/// What a crew tells of itself is what it holds: it has sent what its outbox records, and a sound
/// crew sends through the channel that its workers receive from, which was opened to no one else.
proof fn law_crew_tells_what_it_holds<J: Job>(crew: Channel<J>)
    ensures
        crew.settings() == crew.options,
        crew.hired() == crew.next_id,
        crew.sent() == crew.sender.log(),
        crew.receiver() == crew.source.receiver(),
        crew.wf() ==> joined(crew.sender.sender(), crew.source.receiver()) && crew.source.opened()
            == crew.next_id,
{
}

/// A worker goes on until it takes a `Stop` or the channel ends, and can only return without that
/// after `u64::MAX` attempts. Every job that it acquired went through `perform`, and it has done
/// these jobs and no others, in order and in turn. It asks for no rest.
pub proof fn law_channel_worker_serves<J: Job, R: Fn(Rest)>(
    worker: &mut ChannelWorker<J>,
    rest: R,
    outcome: (bool, Rests<R>),
)
    requires
        call_ensures(ChannelWorker::<J>::serve::<R>, (worker, rest), outcome),
    ensures
        final(worker).wf(),
        final(worker).heard().len() < old(worker).heard().len() + u64::MAX ==> outcome.0,
        outcome.0 ==> {
            &&& final(worker).heard().len() > old(worker).heard().len()
            &&& final(worker).heard().last() == Event::<J>::Taken(Message::Stop)
                || final(worker).heard().last() == Event::<J>::Closed
        },
        forall|i: int|
            old(worker).heard().len() <= i < final(worker).heard().len() && (
            #[trigger] final(worker).heard()[i] == Event::<J>::Taken(Message::Stop)
                || final(worker).heard()[i] == Event::<J>::Closed) ==> {
                &&& outcome.0
                &&& i == final(worker).heard().len() - 1
            },
        forall|i: int|
            0 <= i < old(worker).heard().len() ==> #[trigger] final(worker).heard()[i] == old(
                worker,
            ).heard()[i],
        forall|i: int, job: J|
            old(worker).heard().len() <= i < final(worker).heard().len()
                && #[trigger] final(worker).heard()[i] == Event::Taken(Message::Work(job))
                ==> #[trigger] call_ensures(J::perform, (job,), ()),
        final(worker).done() == old(worker).done() + acquired(
            final(worker).heard().skip(old(worker).heard().len() as int),
        ),
        final(worker).turns() == old(worker).turns() + job_turns(
            final(worker).heard(),
            old(worker).heard().len(),
        ),
        final(worker).id() == old(worker).id(),
        final(worker).receiver() == old(worker).receiver(),
        forall|i: int|
            old(worker).heard().len() <= i < final(worker).heard().len() ==> !(
            #[trigger] final(worker).heard()[i] is Missed) && !(
            final(worker).heard()[i] is Nothing),
        outcome.1.asked().len() == 0,
{
    law_goes_on_until_stopped(old(worker).heard(), final(worker).heard(), outcome.0);
}

/// By default, there is a worker for each CPU.
pub proof fn law_default_options(options: Options)
    requires
        call_ensures(<Options as Default>::default, (), options),
    ensures
        call_ensures(num_cpus::get, (), options.num_workers),
        options.num_workers >= 1,
{
}

/// A sound worker can react to anything but a job that may not be performed, and can serve with
/// any function that spends every rest.
pub proof fn law_channel_workers_are_at_hand<J: Job, R: Fn(Rest)>(
    worker: &mut ChannelWorker<J>,
    event: Event<J>,
    job: J,
    rest: R,
)
    requires
        old(worker).wf(),
    ensures
        job.ready() ==> call_requires(ChannelWorker::<J>::does, (worker, job)),
        (event matches Event::Taken(Message::Work(work)) ==> work.ready()) ==> call_requires(
            ChannelWorker::<J>::react,
            (worker, event),
        ),
        (forall|r: Rest| call_requires(rest, (r,))) ==> call_requires(
            ChannelWorker::<J>::serve::<R>,
            (worker, rest),
        ),
{
}

} // verus!
