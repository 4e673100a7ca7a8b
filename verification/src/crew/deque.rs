//! A crew that uses `crossbeam`'s Chase-Lev deque.

use crate::crew::chase::{joined, open, Inbox, Outbox, Source};
use crate::crew::ledger::Ledger;
use crate::crew::{millis, Crew, Parameters, Rest, Rests, Worker};
use crate::job::{performed, Job};
use crate::message::{
    acquired, after, job_turns, law_goes_on_until_stopped, lemma_acquired_push, served, Event,
    Message, Moment,
};
use crossbeam::sync::chase_lev;
use std::time::Duration;
use vstd::prelude::*;

verus! {

/// How eagerly a worker looks for its next message.
pub enum Load {
    /// It tries again at once.
    Hot,
    /// It yields between attempts.
    Warm,
    /// It sleeps between attempts.
    Cold,
}

/// A worker's load, and how many times it has failed since it last became warm.
pub struct Temper {
    pub load: Load,
    pub retries: nat,
}

/// The temper of a new worker.
pub open spec fn fresh() -> Temper {
    Temper { load: Load::Hot, retries: 0 }
}

/// The worker's temper after one more failure to acquire a message, where `idle` is what a
/// further failure makes of a cold worker.
pub open spec fn cooler(threshold: nat, temper: Temper, idle: Load) -> Temper {
    if threshold == 0 {
        Temper { load: Load::Cold, ..temper }
    } else {
        match temper.load {
            Load::Hot => Temper { load: Load::Warm, retries: 0 },
            Load::Warm => Temper {
                load: if temper.retries + 1 < threshold {
                    Load::Warm
                } else {
                    Load::Cold
                },
                retries: temper.retries + 1,
            },
            Load::Cold => Temper { load: idle, ..temper },
        }
    }
}

/// The worker's temper after one more event.
pub open spec fn tempered_by<J>(threshold: nat, temper: Temper, event: Event<J>) -> Temper {
    match event {
        Event::Taken(Message::Work(_)) => Temper { load: Load::Hot, ..temper },
        Event::Missed => cooler(threshold, temper, Load::Hot),
        Event::Nothing => cooler(threshold, temper, Load::Cold),
        _ => temper,
    }
}

/// The worker's temper after a number of events.
pub open spec fn tempered<J>(threshold: nat, temper: Temper, events: Seq<Event<J>>) -> Temper
    decreases events.len(),
{
    if events.len() == 0 {
        temper
    } else {
        tempered_by(threshold, tempered(threshold, temper, events.drop_last()), events.last())
    }
}

/// The rest that a worker asks for.
pub open spec fn rest_of(options: Options, load: Load) -> Rest {
    match load {
        Load::Hot => Rest::Skip,
        Load::Warm => Rest::Yield,
        Load::Cold => Rest::Sleep(options.cold_interval),
    }
}

/// The rests that a worker asks for over a number of events: one after each, as its load then
/// calls for, but none after an event that halts it.
pub open spec fn rests_over<J>(options: Options, temper: Temper, events: Seq<Event<J>>) -> Seq<Rest>
    decreases events.len(),
{
    if events.len() == 0 {
        Seq::empty()
    } else {
        let earlier = rests_over(options, temper, events.drop_last());
        if events.last().halts() {
            earlier
        } else {
            earlier.push(
                rest_of(options, tempered(options.retry_threshold as nat, temper, events).load),
            )
        }
    }
}

/// When a worker asks for the rests that come after the first `n` of the events: it rests after
/// each event, before its next attempt.
pub open spec fn rest_turns<J>(events: Seq<Event<J>>, n: nat) -> Seq<Moment>
    decreases events.len(),
{
    if events.len() <= n {
        Seq::empty()
    } else if events.last().halts() {
        rest_turns(events.drop_last(), n)
    } else {
        rest_turns(events.drop_last(), n).push(after(events.len()))
    }
}

/// The `Crew` `Member` for `Deque`.
#[verifier::reject_recursive_types(J)]
pub struct DequeWorker<J> {
    id: usize,
    load: Load,
    retries: u32,
    options: Options,
    inbox: Inbox<J>,
    ledger: Ledger<J>,
}

impl<J> DequeWorker<J> {
    /// The options of the crew that the worker belongs to.
    pub closed spec fn options(&self) -> Options {
        self.options
    }

    /// The end of the deque that the worker steals from.
    pub closed spec fn stealer(&self) -> chase_lev::Stealer<Message<J>> {
        self.inbox.stealer()
    }

    /// How eagerly the worker looks for its next message.
    pub closed spec fn temper(&self) -> Temper {
        Temper { load: self.load, retries: self.retries as nat }
    }

    /// How many failures make a warm worker cold.
    pub open spec fn threshold(&self) -> nat {
        self.options().retry_threshold as nat
    }
}

impl<J: Job> DequeWorker<J> {
    /// The worker differs in nothing but its temper and the jobs that it has performed.
    pub open spec fn stays(&self, other: &Self) -> bool {
        &&& self.id() == other.id()
        &&& self.options() == other.options()
        &&& self.stealer() == other.stealer()
        &&& self.heard() == other.heard()
    }

    /// The worker just successfully acquired an item. A panic of the job is passed on.
    pub fn does(&mut self, job: J)
        requires
            old(self).wf(),
            job.ready(),
        ensures
            final(self).wf(),
            final(self).stays(old(self)),
            performed(job),
            final(self).done() == old(self).done().push(job),
            final(self).turns() == old(self).turns().push(after(old(self).heard().len())),
            final(self).temper() == (Temper { load: Load::Hot, ..old(self).temper() }),
    {
        self.ledger.perform(job, &self.inbox);
        self.load = Load::Hot;
    }

    /// The worker just lost a race to acquire an item.
    pub fn missed(&mut self)
        requires
            old(self).wf(),
        ensures
            final(self).wf(),
            final(self).stays(old(self)),
            final(self).done() == old(self).done(),
            final(self).turns() == old(self).turns(),
            final(self).temper() == cooler(old(self).threshold(), old(self).temper(), Load::Hot),
    {
        if self.options.retry_threshold == 0 {
            self.load = Load::Cold;
            return;
        }
        match self.load {
            Load::Hot => self.become_warm(),
            Load::Warm => self.become_cooler(),
            Load::Cold => self.load = Load::Hot,
        }
    }

    /// The worker just found an empty work queue.
    pub fn nothing(&mut self)
        requires
            old(self).wf(),
        ensures
            final(self).wf(),
            final(self).stays(old(self)),
            final(self).done() == old(self).done(),
            final(self).turns() == old(self).turns(),
            final(self).temper() == cooler(old(self).threshold(), old(self).temper(), Load::Cold),
    {
        if self.options.retry_threshold == 0 {
            self.load = Load::Cold;
            return;
        }
        match self.load {
            Load::Hot => self.become_warm(),
            Load::Warm => self.become_cooler(),
            Load::Cold => {},
        }
    }

    /// Continue, yield, or sleep based on the load.
    pub fn wait(&self) -> (rest: Rest)
        ensures
            rest == rest_of(self.options(), self.temper().load),
    {
        match self.load {
            Load::Hot => Rest::Skip,
            Load::Warm => Rest::Yield,
            Load::Cold => Rest::Sleep(self.options.cold_interval),
        }
    }

    fn become_warm(&mut self)
        ensures
            final(self).stays(old(self)),
            final(self).done() == old(self).done(),
            final(self).turns() == old(self).turns(),
            final(self).temper() == (Temper { load: Load::Warm, retries: 0 }),
    {
        self.load = Load::Warm;
        self.retries = 0;
    }

    fn become_cooler(&mut self)
        requires
            old(self).retries < u32::MAX,
        ensures
            final(self).stays(old(self)),
            final(self).done() == old(self).done(),
            final(self).turns() == old(self).turns(),
            final(self).temper().retries == old(self).temper().retries + 1,
            final(self).temper().load == if final(self).temper().retries < old(self).threshold() {
                old(self).temper().load
            } else {
                Load::Cold
            },
    {
        self.retries += 1;
        // exceeded threshold, become cold
        if self.retries >= self.options.retry_threshold {
            self.load = Load::Cold;
        }
    }

    /// Act on what came of an attempt to acquire a message. The result tells whether the worker
    /// carries on.
    pub fn react(&mut self, event: Event<J>) -> (going: bool)
        requires
            old(self).wf(),
            event matches Event::Taken(message) ==> message.ready(),
        ensures
            final(self).wf(),
            final(self).stays(old(self)),
            going == !event.halts(),
            event matches Event::Taken(Message::Work(job)) ==> performed(job),
            final(self).done() == old(self).done() + acquired(seq![event]),
            final(self).turns() == (if event matches Event::Taken(Message::Work(_)) {
                old(self).turns().push(after(old(self).heard().len()))
            } else {
                old(self).turns()
            }),
            final(self).temper() == tempered_by(old(self).threshold(), old(self).temper(), event),
    {
        proof {
            reveal_with_fuel(acquired, 2);
        }
        match event {
            Event::Taken(Message::Work(job)) => {
                self.does(job);
                true
            },
            Event::Taken(Message::Stop) => false,
            Event::Missed => {
                self.missed();
                true
            },
            Event::Nothing => {
                self.nothing();
                true
            },
            Event::Closed => false,
        }
    }
}

impl<J: Job> Worker for DequeWorker<J> {
    type Job = J;

    /// The worker has not failed more often than makes it cold.
    closed spec fn wf(&self) -> bool {
        &&& self.retries <= self.options.retry_threshold
        &&& self.load is Warm ==> self.retries < self.options.retry_threshold
    }

    closed spec fn id(&self) -> nat {
        self.id as nat
    }

    closed spec fn heard(&self) -> Seq<Event<J>> {
        self.inbox.log()
    }

    closed spec fn done(&self) -> Seq<J> {
        self.ledger.done()
    }

    closed spec fn turns(&self) -> Seq<Moment> {
        self.ledger.turns()
    }

    fn run<R: Fn(Rest)>(&mut self, rests: &mut Rests<R>) -> (stopped: bool)
        ensures
            final(self).options() == old(self).options(),
            final(self).stealer() == old(self).stealer(),
            forall|i: int|
                old(self).heard().len() <= i < final(self).heard().len() ==> !(
                #[trigger] final(self).heard()[i] is Closed),
            final(self).temper() == tempered(
                old(self).threshold(),
                old(self).temper(),
                final(self).heard().skip(old(self).heard().len() as int),
            ),
            final(rests).asked() == old(rests).asked() + rests_over(
                old(self).options(),
                old(self).temper(),
                final(self).heard().skip(old(self).heard().len() as int),
            ),
            final(rests).turns() == old(rests).turns() + rest_turns(
                final(self).heard(),
                old(self).heard().len(),
            ),
            forall|i: int|
                old(rests).asked().len() <= i < final(rests).asked().len() ==> call_ensures(
                    old(rests).rest(),
                    (#[trigger] final(rests).asked()[i],),
                    (),
                ),
    {
        let ghost before = self.heard();
        let ghost me = *self;
        let mut left: u64 = u64::MAX;
        while left > 0
            invariant
                me == *old(self),
                before == me.heard(),
                self.wf(),
                self.id() == me.id(),
                self.options() == me.options(),
                self.stealer() == me.stealer(),
                rests.rest() == old(rests).rest(),
                forall|r: Rest| call_requires(old(rests).rest(), (r,)),
                before.is_prefix_of(self.heard()),
                self.heard().len() == before.len() + (u64::MAX - left),
                forall|i: int, job: J|
                    before.len() <= i < self.heard().len() && #[trigger] self.heard()[i]
                        == Event::Taken(Message::Work(job)) ==> #[trigger] performed(job),
                forall|i: int|
                    before.len() <= i < self.heard().len() ==> !(
                    #[trigger] self.heard()[i]).halts(),
                self.done() == me.done() + acquired(self.heard().skip(before.len() as int)),
                self.turns() == me.turns() + job_turns(self.heard(), before.len()),
                self.temper() == tempered(
                    me.threshold(),
                    me.temper(),
                    self.heard().skip(before.len() as int),
                ),
                rests.asked() == old(rests).asked() + rests_over(
                    me.options(),
                    me.temper(),
                    self.heard().skip(before.len() as int),
                ),
                rests.turns() == old(rests).turns() + rest_turns(self.heard(), before.len()),
                forall|i: int|
                    old(rests).asked().len() <= i < rests.asked().len() ==> call_ensures(
                        old(rests).rest(),
                        (#[trigger] rests.asked()[i],),
                        (),
                    ),
            decreases left,
        {
            left -= 1;
            let ghost earlier = self.heard();
            let event = self.inbox.steal();
            proof {
                assert(self.heard().drop_last() =~= earlier);
                assert(self.heard().skip(before.len() as int).drop_last() =~= earlier.skip(
                    before.len() as int,
                ));
                lemma_acquired_push(earlier, before.len(), event);
            }
            if !self.react(event) {
                return true;
            }
            rests.ask(self.wait(), &self.inbox);
        }
        false
    }
}

impl<J: Job> DequeWorker<J> {
    /// Execute the worker's main loop with this function to spend its rests. The outcome tells
    /// whether the loop was stopped, and which rests it asked for.
    pub fn serve<R: Fn(Rest)>(&mut self, rest: R) -> (outcome: (bool, Rests<R>))
        requires
            old(self).wf(),
            forall|r: Rest| call_requires(rest, (r,)),
        ensures
            final(self).wf(),
            final(self).id() == old(self).id(),
            served(old(self).heard(), final(self).heard(), outcome.0),
            final(self).done() == old(self).done() + acquired(
                final(self).heard().skip(old(self).heard().len() as int),
            ),
            final(self).turns() == old(self).turns() + job_turns(
                final(self).heard(),
                old(self).heard().len(),
            ),
            outcome.1.rest() == rest,
            final(self).options() == old(self).options(),
            final(self).stealer() == old(self).stealer(),
            forall|i: int|
                old(self).heard().len() <= i < final(self).heard().len() ==> !(
                #[trigger] final(self).heard()[i] is Closed),
            final(self).temper() == tempered(
                old(self).threshold(),
                old(self).temper(),
                final(self).heard().skip(old(self).heard().len() as int),
            ),
            outcome.1.asked() == rests_over(
                old(self).options(),
                old(self).temper(),
                final(self).heard().skip(old(self).heard().len() as int),
            ),
            outcome.1.turns() == rest_turns(final(self).heard(), old(self).heard().len()),
            forall|i: int|
                0 <= i < outcome.1.asked().len() ==> call_ensures(
                    rest,
                    (#[trigger] outcome.1.asked()[i],),
                    (),
                ),
    {
        let mut rests = Rests::new(rest);
        let stopped = self.run(&mut rests);
        (stopped, rests)
    }
}

/// Parameters to adjust the size and behavior of a pool.
///
/// The current defaults for retry threshold and cold interval--32 and 1ms--were
/// chosen arbitrarily. Experimentation may be prudent.
#[derive(Copy, Clone)]
pub struct Options {
    /// How many times may a worker fail to acquire a job before it becomes
    /// "cold" and sleeps for `cold_interval` between subsequent attempts.
    pub retry_threshold: u32,
    /// The minimum length of time a worker will sleep when it is cold.
    pub cold_interval: Duration,
    /// The number of workers to create in the pool.
    pub num_workers: usize,
}

impl Parameters for Options {
    open spec fn workers(&self) -> usize {
        self.num_workers
    }

    fn num_workers(&self) -> usize {
        self.num_workers
    }
}

impl Default for Options {
    fn default() -> (options: Options)
        ensures
            options.retry_threshold == 32,
            options.cold_interval == millis(1),
            call_ensures(num_cpus::get, (), options.num_workers),
            options.num_workers >= 1,
    {
        Options {
            retry_threshold: 32,
            cold_interval: Duration::from_millis(1),
            num_workers: num_cpus::get(),
        }
    }
}

/// A `Crew` whose workers steal from a shared deque.
#[verifier::reject_recursive_types(J)]
pub struct Deque<J> {
    next_id: usize,
    options: Options,
    sender: Outbox<J>,
    source: Source<J>,
}

impl<J> Deque<J> {
    /// The end of the deque that the workers steal from.
    pub closed spec fn stealer(&self) -> chase_lev::Stealer<Message<J>> {
        self.source.stealer()
    }
}

impl<J: Job> Crew for Deque<J> {
    type Job = J;

    type Member = DequeWorker<J>;

    type Settings = Options;

    /// The two ends are those of one deque, and no inbox was opened but for the workers.
    closed spec fn wf(&self) -> bool {
        &&& joined(self.sender.bottom(), self.source.stealer())
        &&& self.source.opened() == self.next_id
    }

    closed spec fn settings(&self) -> Options {
        self.options
    }

    closed spec fn hired(&self) -> nat {
        self.next_id as nat
    }

    closed spec fn sent(&self) -> Seq<Message<J>> {
        self.sender.log()
    }

    open spec fn employs(&self, member: DequeWorker<J>) -> bool {
        &&& member.options() == self.settings()
        &&& member.stealer() == self.stealer()
        &&& member.temper() == fresh()
    }

    fn new(options: Options) -> (crew: Deque<J>) {
        let (sender, source) = open();
        Deque { next_id: 0, options: options, sender: sender, source: source }
    }

    fn hire(&mut self) -> (member: DequeWorker<J>) {
        let id = self.next_id;
        self.next_id += 1;
        DequeWorker {
            id: id,
            load: Load::Hot,
            retries: 0,
            options: self.options,
            inbox: self.source.inbox(),
            ledger: Ledger::new(),
        }
    }

    fn give<F>(&mut self, f: F) where J: From<F> {
        self.sender.push(Message::Work(J::from(f)));
    }

    fn stop(&mut self) {
        let n = self.options.num_workers;
        for i in 0..n
            invariant
                self.wf(),
                n == self.options.num_workers,
                self.options == old(self).options,
                self.next_id == old(self).next_id,
                self.source == old(self).source,
                self.sent() == old(self).sent() + Seq::new(i as nat, |k: int| Message::Stop),
        {
            self.sender.push(Message::Stop);
        }
    }
}

/// A worker's retries are within its threshold, and below it while the worker is warm.
pub proof fn law_retries_are_bounded<J: Job>(worker: DequeWorker<J>)
    requires
        worker.wf(),
    ensures
        worker.temper().retries <= worker.threshold(),
        worker.temper().load is Warm ==> worker.temper().retries < worker.threshold(),
{
}

/// The event is a failure to acquire a message.
pub open spec fn fails<J>(event: Event<J>) -> bool {
    event is Missed || event is Nothing
}

/// A hot worker may fail as many times as its threshold says before it becomes cold, whether it
/// loses races or finds nothing: the first failure makes it warm, the one beyond the threshold
/// makes it cold, and its retries count the failures between.
pub proof fn law_cools_beyond_threshold<J>(
    threshold: nat,
    temper: Temper,
    failures: Seq<Event<J>>,
)
    requires
        temper.load is Hot,
        forall|i: int| 0 <= i < failures.len() ==> fails(#[trigger] failures[i]),
        failures.len() <= threshold + 1,
    ensures
        tempered(threshold, temper, failures) == (if failures.len() == 0 {
            temper
        } else if threshold == 0 {
            Temper { load: Load::Cold, ..temper }
        } else {
            Temper {
                load: if failures.len() <= threshold {
                    Load::Warm
                } else {
                    Load::Cold
                },
                retries: (failures.len() - 1) as nat,
            }
        }),
    decreases failures.len(),
{
    if failures.len() > 0 {
        law_cools_beyond_threshold(threshold, temper, failures.drop_last());
    }
}

/// A cold worker that finds nothing, however often, stays as it is.
pub proof fn law_stays_cold<J>(threshold: nat, temper: Temper, events: Seq<Event<J>>)
    requires
        temper.load is Cold,
        forall|i: int| 0 <= i < events.len() ==> #[trigger] events[i] is Nothing,
    ensures
        tempered(threshold, temper, events) == temper,
    decreases events.len(),
{
    if events.len() > 0 {
        law_stays_cold(threshold, temper, events.drop_last());
    }
}

/// A hot worker that finds nothing however often yields after each failure within its threshold
/// and sleeps after each failure beyond it, and asks for no other rest.
pub proof fn law_sleeps_while_nothing_comes<J>(
    options: Options,
    temper: Temper,
    events: Seq<Event<J>>,
)
    requires
        temper.load is Hot,
        forall|i: int| 0 <= i < events.len() ==> #[trigger] events[i] is Nothing,
    ensures
        rests_over(options, temper, events) == Seq::new(
            events.len(),
            |i: int|
                if i < options.retry_threshold {
                    Rest::Yield
                } else {
                    Rest::Sleep(options.cold_interval)
                },
        ),
    decreases events.len(),
{
    if events.len() > 0 {
        let threshold = options.retry_threshold as nat;
        law_sleeps_while_nothing_comes(options, temper, events.drop_last());
        lemma_load_while_nothing_comes(threshold, temper, events);
    }
}

proof fn lemma_load_while_nothing_comes<J>(threshold: nat, temper: Temper, events: Seq<Event<J>>)
    requires
        temper.load is Hot,
        events.len() > 0,
        forall|i: int| 0 <= i < events.len() ==> #[trigger] events[i] is Nothing,
    ensures
        tempered(threshold, temper, events).load == (if events.len() <= threshold {
            Load::Warm
        } else {
            Load::Cold
        }),
    decreases events.len(),
{
    if events.len() <= threshold + 1 {
        law_cools_beyond_threshold(threshold, temper, events);
    } else {
        lemma_load_while_nothing_comes(threshold, temper, events.drop_last());
    }
}

/// A worker asks for no rest after the event that halts it.
pub proof fn law_no_rest_after_halting<J>(
    options: Options,
    temper: Temper,
    events: Seq<Event<J>>,
    event: Event<J>,
)
    requires
        event.halts(),
    ensures
        rests_over(options, temper, events.push(event)) == rests_over(options, temper, events),
{
    assert(events.push(event).drop_last() =~= events);
}

/// Whatever a worker met with before, it tries again at once after it performed a job.
pub proof fn law_work_makes_hot<J>(
    options: Options,
    temper: Temper,
    events: Seq<Event<J>>,
    job: J,
)
    ensures
        ({
            let after = tempered(
                options.retry_threshold as nat,
                temper,
                events.push(Event::Taken(Message::Work(job))),
            );
            after.load is Hot && rest_of(options, after.load) is Skip
        }),
{
}

/// Losing a race and finding nothing make a difference to no worker but a cold one whose
/// threshold admits failures: the one shows it that there is work, and makes it hot.
pub proof fn law_failures_differ_only_in_the_cold<J>(threshold: nat, temper: Temper)
    ensures
        tempered_by(threshold, temper, Event::<J>::Missed) != tempered_by(
            threshold,
            temper,
            Event::<J>::Nothing,
        ) <==> threshold > 0 && temper.load is Cold,
        threshold > 0 && temper.load is Cold ==> tempered_by(
            threshold,
            temper,
            Event::<J>::Missed,
        ).load is Hot,
{
}

/// Where the threshold admits no failure at all, a worker is cold after every failure, and its
/// retries stay as they are.
pub proof fn law_no_patience<J>(temper: Temper, events: Seq<Event<J>>)
    requires
        events.len() > 0,
        fails(events.last()),
    ensures
        tempered(0, temper, events) == (Temper {
            load: Load::Cold,
            retries: tempered(0, temper, events.drop_last()).retries,
        }),
{
}

/// A worker's temper goes by what it was before the last event, whatever led there. A job makes
/// the worker hot and a halting event leaves it as it is. A failure makes a hot worker warm and
/// forgets its earlier retries; it is counted against a warm one, and makes it cold once the
/// count is at the threshold; a cold one stays cold if it found nothing and becomes hot if it
/// lost a race. Where the threshold is zero, any failure makes it cold.
pub proof fn law_temper_goes_by_the_last_event<J>(
    threshold: nat,
    temper: Temper,
    events: Seq<Event<J>>,
    event: Event<J>,
)
    ensures
        tempered(threshold, temper, Seq::<Event<J>>::empty()) == temper,
        ({
            let was = tempered(threshold, temper, events);
            let is = tempered(threshold, temper, events.push(event));
            match event {
                Event::Taken(Message::Work(_)) => is.load is Hot && is.retries == was.retries,
                Event::Taken(Message::Stop) | Event::Closed => is == was,
                Event::Missed | Event::Nothing => {
                    &&& threshold == 0 ==> is.load is Cold && is.retries == was.retries
                    &&& threshold > 0 && was.load is Hot ==> is.load is Warm && is.retries == 0
                    &&& threshold > 0 && was.load is Warm ==> {
                        &&& is.retries == was.retries + 1
                        &&& is.load is Cold <==> is.retries >= threshold
                        &&& is.load is Warm <==> is.retries < threshold
                    }
                    &&& threshold > 0 && was.load is Cold ==> {
                        &&& is.retries == was.retries
                        &&& is.load is Hot <==> event is Missed
                        &&& is.load is Cold <==> event is Nothing
                    }
                },
            }
        }),
{
    assert(events.push(event).drop_last() =~= events);
}

/// A worker's temper after two stretches of events is its temper after the second, from where
/// the first had left it.
pub proof fn law_temper_adds_up<J>(
    threshold: nat,
    temper: Temper,
    one: Seq<Event<J>>,
    other: Seq<Event<J>>,
)
    ensures
        tempered(threshold, temper, one + other) == tempered(
            threshold,
            tempered(threshold, temper, one),
            other,
        ),
    decreases other.len(),
{
    if other.len() == 0 {
        assert(one + other =~= one);
    } else {
        law_temper_adds_up(threshold, temper, one, other.drop_last());
        assert((one + other).drop_last() =~= one + other.drop_last());
    }
}

/// After every event that does not halt it, a worker asks for one rest, behind the others:
/// after a job it goes on at once, and in any case it goes on at once, yields, or sleeps for
/// just the interval of its options, as its load after that event is hot, warm or cold. It asks
/// for none after an event that halts it.
pub proof fn law_rests_follow_the_load<J>(
    options: Options,
    temper: Temper,
    events: Seq<Event<J>>,
    event: Event<J>,
)
    ensures
        rests_over(options, temper, Seq::<Event<J>>::empty()) == Seq::<Rest>::empty(),
        ({
            let earlier = rests_over(options, temper, events);
            let rests = rests_over(options, temper, events.push(event));
            let load = tempered(options.retry_threshold as nat, temper, events.push(event)).load;
            match event {
                Event::Taken(Message::Work(_)) => rests == earlier.push(Rest::Skip),
                Event::Taken(Message::Stop) | Event::Closed => rests == earlier,
                Event::Missed | Event::Nothing => {
                    &&& load is Hot ==> rests == earlier.push(Rest::Skip)
                    &&& load is Warm ==> rests == earlier.push(Rest::Yield)
                    &&& load is Cold ==> rests == earlier.push(Rest::Sleep(options.cold_interval))
                },
            }
        }),
{
    assert(events.push(event).drop_last() =~= events);
}

/// The rests over two stretches of events are those over the first, and then those over the
/// second from where the first had left the worker.
pub proof fn law_rests_add_up<J>(
    options: Options,
    temper: Temper,
    one: Seq<Event<J>>,
    other: Seq<Event<J>>,
)
    ensures
        rests_over(options, temper, one + other) == rests_over(options, temper, one) + rests_over(
            options,
            tempered(options.retry_threshold as nat, temper, one),
            other,
        ),
    decreases other.len(),
{
    if other.len() == 0 {
        assert(one + other =~= one);
    } else {
        law_rests_add_up(options, temper, one, other.drop_last());
        law_temper_adds_up(options.retry_threshold as nat, temper, one, other);
        assert((one + other).drop_last() =~= one + other.drop_last());
    }
}

/// Each rest comes after the attempt that it is for and before the next one, while every other
/// worker may acquire messages: the events since the first `n` have a moment for each rest, in
/// order, and the attempt just before it did not halt the worker.
pub proof fn law_rests_come_in_turn<J>(
    options: Options,
    temper: Temper,
    events: Seq<Event<J>>,
    n: nat,
)
    requires
        n <= events.len(),
    ensures
        rest_turns(events, n).len() == rests_over(options, temper, events.skip(n as int)).len(),
        forall|k: int|
            0 <= k < rest_turns(events, n).len() ==> {
                let moment = #[trigger] rest_turns(events, n)[k];
                &&& n < moment.attempts <= events.len()
                &&& !moment.exclusive
                &&& events[moment.attempts - 1] != Event::<J>::Taken(Message::Stop)
                &&& events[moment.attempts - 1] != Event::<J>::Closed
            },
        forall|i: int, k: int|
            0 <= i < k < rest_turns(events, n).len() ==> (#[trigger] rest_turns(
                events,
                n,
            )[i]).attempts < (#[trigger] rest_turns(events, n)[k]).attempts,
    decreases events.len(),
{
    if events.len() > n {
        let init = events.drop_last();
        law_rests_come_in_turn(options, temper, init, n);
        assert(events.skip(n as int).drop_last() =~= init.skip(n as int));
        assert forall|k: int| 0 <= k < rest_turns(events, n).len() implies ({
            let moment = #[trigger] rest_turns(events, n)[k];
            &&& n < moment.attempts <= events.len()
            &&& !moment.exclusive
            &&& events[moment.attempts - 1] != Event::<J>::Taken(Message::Stop)
            &&& events[moment.attempts - 1] != Event::<J>::Closed
        }) by {
            if k < rest_turns(init, n).len() {
                assert(rest_turns(events, n)[k] == rest_turns(init, n)[k]);
            }
        }
        assert forall|i: int, k: int| 0 <= i < k < rest_turns(events, n).len() implies (
        #[trigger] rest_turns(events, n)[i]).attempts < (#[trigger] rest_turns(
            events,
            n,
        )[k]).attempts by {
            assert(rest_turns(events, n)[i] == rest_turns(init, n)[i]);
            if k < rest_turns(init, n).len() {
                assert(rest_turns(events, n)[k] == rest_turns(init, n)[k]);
            }
        }
    }
}

/// A worker asks to go on at once just where it is hot, to yield just where it is warm, and to
/// sleep for the interval of its options just where it is cold.
pub proof fn law_waiting_goes_by_the_load<J: Job>(worker: &DequeWorker<J>, rest: Rest)
    requires
        call_ensures(DequeWorker::<J>::wait, (worker,), rest),
    ensures
        rest == Rest::Skip <==> worker.temper().load is Hot,
        rest == Rest::Yield <==> worker.temper().load is Warm,
        rest == Rest::Sleep(worker.options().cold_interval) <==> worker.temper().load is Cold,
{
}

/// A worker carries on after anything but a `Stop` or the end of its queue. A job that it took
/// went through `perform` and is entered in its record, and nothing else is. Its temper becomes
/// what the event makes of it, and all else stays.
pub proof fn law_reaction_goes_by_the_event<J: Job>(
    worker: &mut DequeWorker<J>,
    event: Event<J>,
    going: bool,
)
    requires
        call_ensures(DequeWorker::<J>::react, (worker, event), going),
    ensures
        !going <==> event == Event::<J>::Taken(Message::Stop) || event == Event::<J>::Closed,
        event matches Event::Taken(Message::Work(job)) ==> {
            &&& call_ensures(J::perform, (job,), ())
            &&& final(worker).done() == old(worker).done().push(job)
            &&& final(worker).turns().len() == old(worker).turns().len() + 1
            &&& final(worker).turns().last().attempts == old(worker).heard().len()
            &&& !final(worker).turns().last().exclusive
        },
        !(event matches Event::Taken(Message::Work(_))) ==> final(worker).done() == old(
            worker,
        ).done() && final(worker).turns() == old(worker).turns(),
        final(worker).temper() == tempered(
            old(worker).options().retry_threshold as nat,
            old(worker).temper(),
            seq![event],
        ),
        final(worker).id() == old(worker).id(),
        final(worker).options() == old(worker).options(),
        final(worker).stealer() == old(worker).stealer(),
        final(worker).heard() == old(worker).heard(),
{
    reveal_with_fuel(acquired, 2);
    reveal_with_fuel(tempered, 2);
    assert(seq![event].drop_last() =~= Seq::<Event<J>>::empty());
}

/// Losing a race does to a worker what the event does.
pub proof fn law_missing_is_the_event<J: Job>(worker: &mut DequeWorker<J>)
    requires
        call_ensures(DequeWorker::<J>::missed, (worker,), ()),
    ensures
        final(worker).temper() == tempered(
            old(worker).options().retry_threshold as nat,
            old(worker).temper(),
            seq![Event::<J>::Missed],
        ),
        final(worker).options() == old(worker).options(),
        final(worker).stealer() == old(worker).stealer(),
        final(worker).heard() == old(worker).heard(),
        final(worker).done() == old(worker).done(),
{
    reveal_with_fuel(tempered, 2);
    assert(seq![Event::<J>::Missed].drop_last() =~= Seq::<Event<J>>::empty());
}

/// Finding nothing does to a worker what the event does.
pub proof fn law_finding_nothing_is_the_event<J: Job>(worker: &mut DequeWorker<J>)
    requires
        call_ensures(DequeWorker::<J>::nothing, (worker,), ()),
    ensures
        final(worker).temper() == tempered(
            old(worker).options().retry_threshold as nat,
            old(worker).temper(),
            seq![Event::<J>::Nothing],
        ),
        final(worker).options() == old(worker).options(),
        final(worker).stealer() == old(worker).stealer(),
        final(worker).heard() == old(worker).heard(),
        final(worker).done() == old(worker).done(),
{
    reveal_with_fuel(tempered, 2);
    assert(seq![Event::<J>::Nothing].drop_last() =~= Seq::<Event<J>>::empty());
}

/// Doing a job calls its `perform`, enters it in the record and makes the worker hot.
pub proof fn law_doing_performs<J: Job>(worker: &mut DequeWorker<J>, job: J)
    requires
        call_ensures(DequeWorker::<J>::does, (worker, job), ()),
    ensures
        call_ensures(J::perform, (job,), ()),
        final(worker).done() == old(worker).done().push(job),
        final(worker).temper().load is Hot,
        final(worker).temper().retries == old(worker).temper().retries,
        final(worker).options() == old(worker).options(),
        final(worker).stealer() == old(worker).stealer(),
        final(worker).heard() == old(worker).heard(),
{
}

/// Whoever a crew employs steals from the crew's own deque, goes by the crew's own options, and
/// is hot, with no failure to its name.
pub proof fn law_employed_share_the_deque<J: Job>(crew: &Deque<J>, member: DequeWorker<J>)
    requires
        crew.employs(member),
    ensures
        member.stealer() == crew.stealer(),
        member.options() == crew.settings(),
        member.temper().load is Hot,
        member.temper().retries == 0,
{
}

/// Everyone that a crew hires steals from the deque that the crew has, before and after, goes by
/// its options, and bears the number of workers hired before. Hiring sends nothing.
pub proof fn law_hired_share_the_deque<J: Job>(crew: &mut Deque<J>, member: DequeWorker<J>)
    requires
        call_ensures(<Deque<J> as Crew>::hire, (crew,), member),
    ensures
        member.stealer() == old(crew).stealer(),
        final(crew).stealer() == old(crew).stealer(),
        member.options() == old(crew).settings(),
        member.temper().load is Hot,
        member.temper().retries == 0,
        member.id() == old(crew).hired(),
        member.heard().len() == 0,
        member.done().len() == 0,
        final(crew).hired() == old(crew).hired() + 1,
        final(crew).sent() == old(crew).sent(),
        final(crew).settings() == old(crew).settings(),
{
    assert(final(crew).employs(member));
    assert(old(crew).employs(member));
}

/// Telling a crew to stop sends one `Stop` for each of the workers that its options ask for,
/// behind all that was sent before.
pub proof fn law_deque_stops_each_worker<J: Job>(crew: &mut Deque<J>)
    requires
        call_ensures(<Deque<J> as Crew>::stop, (crew,), ()),
    ensures
        final(crew).sent().len() == old(crew).sent().len() + old(crew).settings().num_workers,
        forall|i: int|
            0 <= i < final(crew).sent().len() ==> #[trigger] final(crew).sent()[i] == (if i < old(
                crew,
            ).sent().len() {
                old(crew).sent()[i]
            } else {
                Message::Stop
            }),
        final(crew).settings() == old(crew).settings(),
        final(crew).hired() == old(crew).hired(),
{
}

/// The number of workers is the one in the options.
pub proof fn law_deque_has_as_many_workers_as_asked(options: Options, n: usize)
    ensures
        options.workers() == options.num_workers,
        call_ensures(<Options as Parameters>::num_workers, (&options,), n) ==> n
            == options.num_workers,
{
}

/// What a worker tells of itself is what it holds: it hears what its inbox records, has done
/// what its ledger records, steals from where its inbox does, and goes by its own load, retries
/// and options.
proof fn law_worker_tells_what_it_holds<J: Job>(worker: DequeWorker<J>)
    ensures
        worker.id() == worker.id,
        worker.options() == worker.options,
        worker.temper().load == worker.load,
        worker.temper().retries == worker.retries,
        worker.stealer() == worker.inbox.stealer(),
        worker.heard() == worker.inbox.log(),
        worker.done() == worker.ledger.done(),
        worker.turns() == worker.ledger.turns(),
{
}

/// What a crew tells of itself is what it holds: it has sent what its outbox records, and a sound
/// crew pushes onto the deque that its workers steal from, which was opened to no one else.
proof fn law_crew_tells_what_it_holds<J: Job>(crew: Deque<J>)
    ensures
        crew.settings() == crew.options,
        crew.hired() == crew.next_id,
        crew.sent() == crew.sender.log(),
        crew.stealer() == crew.source.stealer(),
        crew.wf() ==> call_ensures(
            chase_lev::deque::<Message<J>>,
            (),
            (crew.sender.bottom(), crew.source.stealer()),
        ) && crew.source.opened() == crew.next_id,
{
}

/// A worker goes on until it takes a `Stop`, which is then its last message, and can only return
/// without one after `u64::MAX` attempts. Every job that it acquired went through `perform`, and
/// it has done these jobs and no others, in order and in turn. It has asked for just the rests
/// that its load called for, and each was spent.
pub proof fn law_deque_worker_serves<J: Job, R: Fn(Rest)>(
    worker: &mut DequeWorker<J>,
    rest: R,
    outcome: (bool, Rests<R>),
)
    requires
        call_ensures(DequeWorker::<J>::serve::<R>, (worker, rest), outcome),
    ensures
        final(worker).wf(),
        final(worker).heard().len() < old(worker).heard().len() + u64::MAX ==> outcome.0,
        outcome.0 ==> {
            &&& final(worker).heard().len() > old(worker).heard().len()
            &&& final(worker).heard().last() == Event::<J>::Taken(Message::Stop)
        },
        forall|i: int|
            old(worker).heard().len() <= i < final(worker).heard().len() && (
            #[trigger] final(worker).heard()[i] == Event::<J>::Taken(Message::Stop)
                || final(worker).heard()[i] == Event::<J>::Closed) ==> {
                &&& outcome.0
                &&& i == final(worker).heard().len() - 1
            },
        forall|i: int|
            0 <= i < old(worker).heard().len() ==> #[trigger] final(worker).heard()[i] == old(
                worker,
            ).heard()[i],
        forall|i: int, job: J|
            old(worker).heard().len() <= i < final(worker).heard().len()
                && #[trigger] final(worker).heard()[i] == Event::Taken(Message::Work(job))
                ==> #[trigger] call_ensures(J::perform, (job,), ()),
        final(worker).done() == old(worker).done() + acquired(
            final(worker).heard().skip(old(worker).heard().len() as int),
        ),
        final(worker).turns() == old(worker).turns() + job_turns(
            final(worker).heard(),
            old(worker).heard().len(),
        ),
        final(worker).id() == old(worker).id(),
        final(worker).options() == old(worker).options(),
        final(worker).stealer() == old(worker).stealer(),
        final(worker).temper() == tempered(
            old(worker).options().retry_threshold as nat,
            old(worker).temper(),
            final(worker).heard().skip(old(worker).heard().len() as int),
        ),
        outcome.1.asked() == rests_over(
            old(worker).options(),
            old(worker).temper(),
            final(worker).heard().skip(old(worker).heard().len() as int),
        ),
        outcome.1.turns() == rest_turns(final(worker).heard(), old(worker).heard().len()),
        forall|i: int|
            0 <= i < outcome.1.asked().len() ==> call_ensures(
                rest,
                (#[trigger] outcome.1.asked()[i],),
                (),
            ),
{
    law_goes_on_until_stopped(old(worker).heard(), final(worker).heard(), outcome.0);
}

/// By default, a worker may fail 32 times before it becomes cold, a cold worker sleeps for a
/// millisecond, and there is a worker for each CPU.
pub proof fn law_default_options(options: Options)
    requires
        call_ensures(<Options as Default>::default, (), options),
    ensures
        options.retry_threshold == 32,
        options.cold_interval == millis(1),
        call_ensures(num_cpus::get, (), options.num_workers),
        options.num_workers >= 1,
{
}

/// A sound worker can react to anything but a job that may not be performed, and can serve with
/// any function that spends every rest.
pub proof fn law_deque_workers_are_at_hand<J: Job, R: Fn(Rest)>(
    worker: &mut DequeWorker<J>,
    event: Event<J>,
    job: J,
    rest: R,
)
    requires
        old(worker).wf(),
    ensures
        call_requires(DequeWorker::<J>::wait, (&*old(worker),)),
        call_requires(DequeWorker::<J>::missed, (worker,)),
        call_requires(DequeWorker::<J>::nothing, (worker,)),
        job.ready() ==> call_requires(DequeWorker::<J>::does, (worker, job)),
        (event matches Event::Taken(Message::Work(work)) ==> work.ready()) ==> call_requires(
            DequeWorker::<J>::react,
            (worker, event),
        ),
        (forall|r: Rest| call_requires(rest, (r,))) ==> call_requires(
            DequeWorker::<J>::serve::<R>,
            (worker, rest),
        ),
{
}

} // verus!
