//! What becomes of the messages that a crew sends: which worker acquires which, what the
//! workers make of them, and that a closed crew does every job and then goes home.
//!
//! A queue hands out messages in the order in which they were sent, each of them to one worker.
//! Which worker that is, is up to the threads; everything here holds whichever it is.

use crate::crew::gave;
use crate::job::{performed, Job};
use crate::message::{acquired, job_turns, served, Event, Message, Moment};
use vstd::multiset::Multiset;
use vstd::prelude::*;

verus! {

/// The jobs among the messages, in order.
pub open spec fn works<J>(messages: Seq<Message<J>>) -> Seq<J>
    decreases messages.len(),
{
    if messages.len() == 0 {
        Seq::empty()
    } else {
        match messages.last() {
            Message::Work(job) => works(messages.drop_last()).push(job),
            Message::Stop => works(messages.drop_last()),
        }
    }
}

/// Every message is a job.
pub open spec fn all_work<J>(messages: Seq<Message<J>>) -> bool {
    forall|i: int| 0 <= i < messages.len() ==> #[trigger] messages[i] is Work
}

/// All that a crew of `n` workers sends that is given these jobs and then told to stop.
pub open spec fn closing<J>(jobs: Seq<J>, n: nat) -> Seq<Message<J>> {
    jobs.map_values(|job: J| Message::Work(job)) + Seq::new(n, |i: int| Message::Stop)
}

/// The messages that a worker acquired, in order.
pub open spec fn taken<J>(events: Seq<Event<J>>) -> Seq<Message<J>>
    decreases events.len(),
{
    if events.len() == 0 {
        Seq::empty()
    } else {
        match events.last() {
            Event::Taken(message) => taken(events.drop_last()).push(message),
            _ => taken(events.drop_last()),
        }
    }
}

/// The messages that worker `w` acquires where `sent[k]` goes to worker `deal[k]`, in order.
pub open spec fn share<J>(sent: Seq<Message<J>>, deal: Seq<int>, w: int) -> Seq<Message<J>>
    decreases deal.len(),
{
    if deal.len() == 0 {
        Seq::empty()
    } else if deal.last() == w {
        share(sent, deal.drop_last(), w).push(sent[deal.len() - 1])
    } else {
        share(sent, deal.drop_last(), w)
    }
}

/// The events so far of a worker that performs what it acquires before it attempts anything
/// else, and attempts nothing after an event that halts it. It may still be at what it acquired
/// last.
pub open spec fn diligent<J: Job>(life: Seq<Event<J>>) -> bool {
    &&& forall|i: int| 0 <= i < life.len() - 1 ==> !(#[trigger] life[i]).halts()
    &&& forall|i: int, job: J|
        0 <= i < life.len() - 1 && #[trigger] life[i] == Event::Taken(Message::Work(job))
            ==> #[trigger] performed(job)
}

/// The events of a worker that has performed what it acquired, all of it, and that attempted
/// nothing after an event that halts it.
pub open spec fn dutiful<J: Job>(life: Seq<Event<J>>) -> bool {
    &&& forall|i: int| 0 <= i < life.len() - 1 ==> !(#[trigger] life[i]).halts()
    &&& forall|i: int, job: J|
        0 <= i < life.len() && #[trigger] life[i] == Event::Taken(Message::Work(job))
            ==> #[trigger] performed(job)
}

/// The queue handed the first `deal.len()` of the messages sent to the workers whose events
/// these are, `sent[k]` to worker `deal[k]`, and nothing else to anyone.
pub open spec fn delivered<J>(
    sent: Seq<Message<J>>,
    deal: Seq<int>,
    lives: Seq<Seq<Event<J>>>,
) -> bool {
    &&& deal.len() <= sent.len()
    &&& forall|k: int| 0 <= k < deal.len() ==> 0 <= #[trigger] deal[k] < lives.len()
    &&& forall|w: int|
        0 <= w < lives.len() ==> taken(#[trigger] lives[w]) == share(sent, deal, w)
}

/// A shift of diligent workers.
pub open spec fn shift<J: Job>(
    sent: Seq<Message<J>>,
    deal: Seq<int>,
    lives: Seq<Seq<Event<J>>>,
) -> bool {
    &&& delivered(sent, deal, lives)
    &&& forall|w: int| 0 <= w < lives.len() ==> diligent(#[trigger] lives[w])
}

/// No worker is in the midst of a job.
pub open spec fn rested<J: Job>(lives: Seq<Seq<Event<J>>>) -> bool {
    forall|w: int| 0 <= w < lives.len() ==> dutiful(#[trigger] lives[w])
}

/// All the jobs that the first `n` of the workers acquired.
pub open spec fn gathered<J>(lives: Seq<Seq<Event<J>>>, n: nat) -> Multiset<J>
    decreases n,
{
    if n == 0 {
        Multiset::empty()
    } else {
        gathered(lives, (n - 1) as nat).add(acquired(lives[n - 1]).to_multiset())
    }
}

/// A worker's main loop is dutiful, and so is one that is taken up again after it ran out of
/// turns.
pub proof fn law_main_loop_is_dutiful<J: Job>(
    before: Seq<Event<J>>,
    after: Seq<Event<J>>,
    stopped: bool,
)
    requires
        dutiful(before),
        before.len() > 0 ==> !before.last().halts(),
        served(before, after, stopped),
    ensures
        dutiful(after),
        stopped <==> after.len() > before.len() && after.last().halts(),
        !stopped ==> after.len() > 0 && !after.last().halts(),
{
    assert forall|i: int| 0 <= i < after.len() - 1 implies !(#[trigger] after[i]).halts() by {
        if i < before.len() {
            assert(before[i] == after[i]);
        }
    }
    assert forall|i: int, job: J|
        0 <= i < after.len() && #[trigger] after[i] == Event::Taken(
            Message::Work(job),
        ) implies #[trigger] performed(job) by {
        if i < before.len() {
            assert(before[i] == after[i]);
        }
    }
}

/// At every point of a dutiful life, the worker was diligent.
pub proof fn law_dutiful_is_diligent_throughout<J: Job>(life: Seq<Event<J>>, n: int)
    requires
        dutiful(life),
        0 <= n <= life.len(),
    ensures
        diligent(life.take(n)),
{
    assert forall|i: int| 0 <= i < n - 1 implies !(#[trigger] life.take(n)[i]).halts() by {
        assert(life[i] == life.take(n)[i]);
    }
    assert forall|i: int, job: J|
        0 <= i < n - 1 && #[trigger] life.take(n)[i] == Event::Taken(
            Message::Work(job),
        ) implies #[trigger] performed(job) by {
        assert(life[i] == life.take(n)[i]);
    }
}

/// A worker that has performed just what it acquired has, after its main loop, performed just
/// what it acquired, in that order.
pub proof fn law_done_is_what_was_acquired<J>(
    before: Seq<Event<J>>,
    after: Seq<Event<J>>,
    done: Seq<J>,
)
    requires
        before.is_prefix_of(after),
        done == acquired(before),
    ensures
        done + acquired(after.skip(before.len() as int)) == acquired(after),
    decreases after.len(),
{
    let n = before.len() as int;
    if after.len() == before.len() {
        assert(before =~= after);
    } else {
        law_done_is_what_was_acquired(before, after.drop_last(), done);
        assert(after.skip(n).drop_last() =~= after.drop_last().skip(n));
    }
}

/// A crew that has sent nothing but jobs has, once it is given one more, sent nothing but jobs,
/// the new one last.
pub proof fn law_giving_adds_a_job<J: From<F>, F>(
    f: F,
    before: Seq<Message<J>>,
    after: Seq<Message<J>>,
)
    requires
        all_work(before),
        gave::<J, F>(f, before, after),
    ensures
        all_work(after),
        exists|job: J| #[trigger]
            call_ensures(J::from, (f,), job) && works(after) == works(before).push(job),
{
    let job = choose|job: J| #[trigger]
        call_ensures(J::from, (f,), job) && after == before.push(Message::Work(job));
    assert(after.drop_last() =~= before);
}

/// Telling a crew of `n` workers to stop leaves what it has sent as the jobs that it was given,
/// all of them before the first `Stop`, and one `Stop` for each worker.
pub proof fn law_stopping_closes<J>(before: Seq<Message<J>>, n: nat)
    requires
        all_work(before),
    ensures
        before + Seq::new(n, |i: int| Message::Stop) == closing(works(before), n),
{
    lemma_all_work(before);
}

proof fn lemma_all_work<J>(messages: Seq<Message<J>>)
    requires
        all_work(messages),
    ensures
        works(messages).map_values(|job: J| Message::Work(job)) == messages,
    decreases messages.len(),
{
    if messages.len() > 0 {
        let init = messages.drop_last();
        lemma_all_work(init);
        assert(messages =~= init.push(messages.last()));
    }
}

/// `sent[k]` stands in its worker's share behind what that worker was dealt before.
proof fn lemma_share_at<J>(sent: Seq<Message<J>>, deal: Seq<int>, k: int)
    requires
        0 <= k < deal.len(),
    ensures
        share(sent, deal.take(k), deal[k]).len() < share(sent, deal, deal[k]).len(),
        share(sent, deal, deal[k])[share(sent, deal.take(k), deal[k]).len() as int] == sent[k],
    decreases deal.len(),
{
    let init = deal.drop_last();
    if k < deal.len() - 1 {
        lemma_share_at(sent, init, k);
        assert(init.take(k) =~= deal.take(k));
    }
}

/// Whatever stands in a worker's share was dealt to it.
proof fn lemma_share_origin<J>(sent: Seq<Message<J>>, deal: Seq<int>, w: int, p: int) -> (k: int)
    requires
        0 <= p < share(sent, deal, w).len(),
    ensures
        0 <= k < deal.len(),
        deal[k] == w,
        sent[k] == share(sent, deal, w)[p],
    decreases deal.len(),
{
    let init = deal.drop_last();
    if deal.last() == w && p == share(sent, deal, w).len() - 1 {
        deal.len() - 1
    } else {
        lemma_share_origin(sent, init, w, p)
    }
}

/// Every message that a worker acquired is the outcome of one of its attempts, and none but the
/// last message can be that of the last attempt.
proof fn lemma_taken_at<J>(events: Seq<Event<J>>, p: int) -> (i: int)
    requires
        0 <= p < taken(events).len(),
    ensures
        0 <= i < events.len(),
        events[i] == Event::Taken(taken(events)[p]),
        p < taken(events).len() - 1 ==> i < events.len() - 1,
    decreases events.len(),
{
    let init = events.drop_last();
    if events.last() is Taken && p == taken(events).len() - 1 {
        events.len() - 1
    } else {
        lemma_taken_at(init, p)
    }
}

/// Every attempt that came to a message added it to the messages that the worker acquired.
proof fn lemma_taken_of<J>(events: Seq<Event<J>>, i: int) -> (p: int)
    requires
        0 <= i < events.len(),
        events[i] is Taken,
    ensures
        0 <= p < taken(events).len(),
        events[i] == Event::Taken(taken(events)[p]),
    decreases events.len(),
{
    let init = events.drop_last();
    if i == events.len() - 1 {
        taken(events).len() - 1
    } else {
        lemma_taken_of(init, i)
    }
}

/// The jobs that a worker acquired are those among the messages that it acquired.
proof fn lemma_acquired_is_taken<J>(events: Seq<Event<J>>)
    ensures
        acquired(events) == works(taken(events)),
    decreases events.len(),
{
    if events.len() > 0 {
        let init = events.drop_last();
        lemma_acquired_is_taken(init);
        if events.last() is Taken {
            assert(taken(events).drop_last() =~= taken(init));
        }
    }
}

/// A diligent worker takes at most one `Stop`, and that as its last message.
pub proof fn law_at_most_one_stop<J: Job>(life: Seq<Event<J>>)
    requires
        diligent(life),
    ensures
        forall|p: int| 0 <= p < taken(life).len() - 1 ==> #[trigger] taken(life)[p] is Work,
{
    assert forall|p: int| 0 <= p < taken(life).len() - 1 implies #[trigger] taken(
        life,
    )[p] is Work by {
        lemma_taken_at(life, p);
    }
}

/// A worker that is the only one to take messages takes them in the order in which they were
/// sent, and so acquires the jobs among them in that order.
pub proof fn law_sole_worker_keeps_the_order<J>(
    sent: Seq<Message<J>>,
    deal: Seq<int>,
    life: Seq<Event<J>>,
)
    requires
        delivered(sent, deal, seq![life]),
    ensures
        taken(life) == sent.take(deal.len() as int),
        acquired(life) == works(sent.take(deal.len() as int)),
{
    assert(seq![life][0] == life);
    lemma_sole_share(sent, deal);
    lemma_acquired_is_taken(life);
}

proof fn lemma_sole_share<J>(sent: Seq<Message<J>>, deal: Seq<int>)
    requires
        deal.len() <= sent.len(),
        forall|k: int| 0 <= k < deal.len() ==> 0 <= #[trigger] deal[k] < 1,
    ensures
        share(sent, deal, 0) == sent.take(deal.len() as int),
    decreases deal.len(),
{
    if deal.len() > 0 {
        lemma_sole_share(sent, deal.drop_last());
    }
}

/// A worker that is the only one to take messages, and that has halted on a `Stop`, acquired the
/// jobs ahead of the first `Stop`, in the order in which they were sent, and left everything
/// `behind` it.
pub proof fn law_sole_worker_halts_at_the_first_stop<J: Job>(
    jobs: Seq<J>,
    behind: Seq<Message<J>>,
    deal: Seq<int>,
    life: Seq<Event<J>>,
)
    requires
        shift(closing(jobs, 1) + behind, deal, seq![life]),
        life.len() > 0,
        life.last() == Event::<J>::Taken(Message::Stop),
    ensures
        deal.len() == jobs.len() + 1,
        acquired(life) == jobs,
        forall|k: int| 0 <= k < jobs.len() ==> performed(#[trigger] jobs[k]),
{
    let sent = closing(jobs, 1) + behind;
    let m = jobs.len() as int;
    law_sole_worker_keeps_the_order(sent, deal, life);
    if deal.len() > m + 1 {
        law_nothing_after_stop(sent, deal, seq![life], m, m + 1);
    }
    assert(sent.take(m + 1) =~= closing(jobs, 1));
    lemma_works_of_closing(jobs, 1);
    assert forall|k: int| 0 <= k < jobs.len() implies performed(#[trigger] jobs[k]) by {
        lemma_dealt_at(sent, deal, seq![life], k);
    }
}

/// A worker that was dealt a `Stop` is dealt nothing afterwards.
pub proof fn law_nothing_after_stop<J: Job>(
    sent: Seq<Message<J>>,
    deal: Seq<int>,
    lives: Seq<Seq<Event<J>>>,
    i: int,
    k: int,
)
    requires
        shift(sent, deal, lives),
        0 <= i < k < deal.len(),
        sent[i] is Stop,
    ensures
        deal[i] != deal[k],
{
    if deal[i] == deal[k] {
        let w = deal[i];
        let life = lives[w];
        let p = share(sent, deal.take(i), w).len() as int;
        lemma_share_at(sent, deal, i);
        lemma_share_at(sent, deal, k);
        lemma_share_at(sent, deal.take(k), i);
        assert(deal.take(k).take(i) =~= deal.take(i));
        lemma_taken_at(life, p);
    }
}

/// Every message that was dealt is the outcome of one of its worker's attempts.
proof fn lemma_dealt_at<J>(
    sent: Seq<Message<J>>,
    deal: Seq<int>,
    lives: Seq<Seq<Event<J>>>,
    k: int,
) -> (i: int)
    requires
        delivered(sent, deal, lives),
        0 <= k < deal.len(),
    ensures
        0 <= i < lives[deal[k]].len(),
        lives[deal[k]][i] == Event::Taken(sent[k]),
{
    let w = deal[k];
    lemma_share_at(sent, deal, k);
    lemma_taken_at(lives[w], share(sent, deal.take(k), w).len() as int)
}

/// Once no worker is in the midst of a job, every job that was dealt was performed.
pub proof fn law_dealt_jobs_are_performed<J: Job>(
    sent: Seq<Message<J>>,
    deal: Seq<int>,
    lives: Seq<Seq<Event<J>>>,
    k: int,
    job: J,
)
    requires
        delivered(sent, deal, lives),
        rested(lives),
        0 <= k < deal.len(),
        sent[k] == Message::Work(job),
    ensures
        performed(job),
{
    lemma_dealt_at(sent, deal, lives, k);
}

/// The workers that the messages from `m` on were dealt to, where these are all `Stop`: no
/// worker twice.
proof fn lemma_distinct_stops<J: Job>(
    sent: Seq<Message<J>>,
    deal: Seq<int>,
    lives: Seq<Seq<Event<J>>>,
    m: int,
)
    requires
        shift(sent, deal, lives),
        0 <= m <= deal.len(),
        forall|k: int| m <= k < sent.len() ==> #[trigger] sent[k] is Stop,
    ensures
        deal.skip(m).no_duplicates(),
        deal.skip(m).to_set().subset_of(vstd::set_lib::set_int_range(0, lives.len() as int)),
        deal.skip(m).to_set().len() == deal.len() - m,
{
    let stopped = deal.skip(m);
    assert forall|a: int, b: int|
        0 <= a < stopped.len() && 0 <= b < stopped.len() && a != b implies stopped[a]
        != stopped[b] by {
        if a < b {
            law_nothing_after_stop(sent, deal, lives, m + a, m + b);
        } else {
            law_nothing_after_stop(sent, deal, lives, m + b, m + a);
        }
    }
    stopped.unique_seq_to_set();
    assert forall|w: int| #[trigger] stopped.to_set().contains(w) implies 0 <= w < lives.len() by {
        let a = choose|a: int| 0 <= a < stopped.len() && stopped[a] == w;
    }
}

/// No worker of a closed crew takes a `Stop` before every job has been taken: once one has, and
/// no worker is in the midst of a job any more, every job has been performed.
pub proof fn law_jobs_come_before_stops<J: Job>(
    jobs: Seq<J>,
    n: nat,
    deal: Seq<int>,
    lives: Seq<Seq<Event<J>>>,
    w: int,
    i: int,
)
    requires
        shift(closing(jobs, n), deal, lives),
        0 <= w < lives.len(),
        0 <= i < lives[w].len(),
        lives[w][i] == Event::<J>::Taken(Message::Stop),
    ensures
        deal.len() > jobs.len(),
        rested(lives) ==> forall|k: int| 0 <= k < jobs.len() ==> performed(#[trigger] jobs[k]),
{
    let sent = closing(jobs, n);
    let p = lemma_taken_of(lives[w], i);
    lemma_share_origin(sent, deal, w, p);
    if rested(lives) {
        assert forall|k: int| 0 <= k < jobs.len() implies performed(#[trigger] jobs[k]) by {
            law_dealt_jobs_are_performed(sent, deal, lives, k, jobs[k]);
        }
    }
}

proof fn lemma_works_of_closing<J>(jobs: Seq<J>, n: nat)
    ensures
        works(closing(jobs, n)) == jobs,
    decreases jobs.len() + n,
{
    let sent = closing(jobs, n);
    if n > 0 {
        lemma_works_of_closing(jobs, (n - 1) as nat);
        assert(sent.drop_last() =~= closing(jobs, (n - 1) as nat));
    } else if jobs.len() > 0 {
        lemma_works_of_closing(jobs.drop_last(), 0);
        assert(sent.drop_last() =~= closing(jobs.drop_last(), 0));
    }
}

/// Once a closed crew has nothing left to hand out, every job was acquired exactly once and
/// performed, and every worker has halted, on a `Stop` of its own.
pub proof fn law_closed_crew_goes_home<J: Job>(
    jobs: Seq<J>,
    deal: Seq<int>,
    lives: Seq<Seq<Event<J>>>,
)
    requires
        shift(closing(jobs, lives.len()), deal, lives),
        deal.len() == closing(jobs, lives.len()).len(),
    ensures
        gathered(lives, lives.len()) == jobs.to_multiset(),
        forall|k: int| 0 <= k < jobs.len() ==> performed(#[trigger] jobs[k]),
        forall|w: int|
            0 <= w < lives.len() ==> (#[trigger] lives[w]).len() > 0 && lives[w].last()
                == Event::<J>::Taken(Message::Stop),
{
    let n = lives.len();
    let m = jobs.len() as int;
    let sent = closing(jobs, n);
    law_each_job_once(sent, deal, lives);
    lemma_works_of_closing(jobs, n);
    assert(sent.take(deal.len() as int) =~= sent);
    let stopped = deal.skip(m);
    let everyone = vstd::set_lib::set_int_range(0, n as int);
    lemma_distinct_stops(sent, deal, lives, m);
    vstd::set_lib::lemma_int_range(0, n as int);
    vstd::set_lib::lemma_len_subset(stopped.to_set(), everyone);
    vstd::set_lib::lemma_subset_equality(stopped.to_set(), everyone);
    assert forall|w: int| 0 <= w < lives.len() implies (#[trigger] lives[w]).len() > 0
        && lives[w].last() == Event::<J>::Taken(Message::Stop) by {
        assert(stopped.to_set().contains(w));
        let a = choose|a: int| 0 <= a < stopped.len() && stopped[a] == w;
        let k = m + a;
        lemma_dealt_at(sent, deal, lives, k);
    }
    assert forall|k: int| 0 <= k < jobs.len() implies performed(#[trigger] jobs[k]) by {
        let i = lemma_dealt_at(sent, deal, lives, k);
        assert(lives[deal[k]][i] == Event::Taken(Message::Work(jobs[k])));
    }
}

/// As long as a closed crew has something left to hand out, there is a worker that has not
/// taken a `Stop`.
pub proof fn law_someone_is_left_to_work<J: Job>(
    jobs: Seq<J>,
    deal: Seq<int>,
    lives: Seq<Seq<Event<J>>>,
) -> (w: int)
    requires
        shift(closing(jobs, lives.len()), deal, lives),
        deal.len() < closing(jobs, lives.len()).len(),
        lives.len() > 0,
    ensures
        0 <= w < lives.len(),
        forall|i: int|
            0 <= i < lives[w].len() ==> #[trigger] lives[w][i] != Event::<J>::Taken(Message::Stop),
{
    let n = lives.len();
    let m = jobs.len() as int;
    let sent = closing(jobs, n);
    let everyone = vstd::set_lib::set_int_range(0, n as int);
    let from = if m <= deal.len() {
        m
    } else {
        deal.len() as int
    };
    let stopped = deal.skip(from);
    vstd::set_lib::lemma_int_range(0, n as int);
    if m <= deal.len() {
        lemma_distinct_stops(sent, deal, lives, m);
    } else {
        stopped.unique_seq_to_set();
    }
    let w = if exists|w: int| everyone.contains(w) && !stopped.to_set().contains(w) {
        choose|w: int| everyone.contains(w) && !stopped.to_set().contains(w)
    } else {
        vstd::set_lib::lemma_len_subset(everyone, stopped.to_set());
        0
    };
    assert forall|i: int| 0 <= i < lives[w].len() implies #[trigger] lives[w][i] != Event::<
        J,
    >::Taken(Message::Stop) by {
        if lives[w][i] == Event::<J>::Taken(Message::Stop) {
            let p = lemma_taken_of(lives[w], i);
            let k = lemma_share_origin(sent, deal, w, p);
            assert(stopped[k - from] == w);
        }
    }
    w
}

/// All the jobs in the shares of the first `n` workers.
spec fn dealt<J>(sent: Seq<Message<J>>, deal: Seq<int>, n: nat) -> Multiset<J>
    decreases n,
{
    if n == 0 {
        Multiset::empty()
    } else {
        dealt(sent, deal, (n - 1) as nat).add(works(share(sent, deal, n - 1)).to_multiset())
    }
}

/// One more deal adds its job, if it is one, to what the first `n` workers were dealt, if its
/// worker is among these.
proof fn lemma_dealt_step<J>(sent: Seq<Message<J>>, deal: Seq<int>, n: nat)
    requires
        0 < deal.len() <= sent.len(),
    ensures
        dealt(sent, deal, n) == (match sent[deal.len() - 1] {
            Message::Work(job) if 0 <= deal.last() < n => dealt(sent, deal.drop_last(), n).insert(
                job,
            ),
            _ => dealt(sent, deal.drop_last(), n),
        }),
    decreases n,
{
    broadcast use vstd::seq_lib::group_to_multiset_ensures;

    if n > 0 {
        lemma_dealt_step(sent, deal, (n - 1) as nat);
        let w = n - 1;
        let message = sent[deal.len() - 1];
        let mine = share(sent, deal.drop_last(), w);
        if deal.last() == w {
            assert(mine.push(message).drop_last() =~= mine);
        }
    }
}

/// The workers were dealt the jobs among the messages that were handed out, all of them.
proof fn lemma_dealt<J>(sent: Seq<Message<J>>, deal: Seq<int>, n: nat)
    requires
        deal.len() <= sent.len(),
        forall|k: int| 0 <= k < deal.len() ==> 0 <= #[trigger] deal[k] < n,
    ensures
        dealt(sent, deal, n) == works(sent.take(deal.len() as int)).to_multiset(),
    decreases deal.len(),
{
    broadcast use vstd::seq_lib::group_to_multiset_ensures;

    if deal.len() == 0 {
        lemma_dealt_nothing(sent, deal, n);
    } else {
        let init = deal.drop_last();
        lemma_dealt(sent, init, n);
        lemma_dealt_step(sent, deal, n);
        assert(sent.take(deal.len() as int).drop_last() =~= sent.take(init.len() as int));
    }
}

proof fn lemma_dealt_nothing<J>(sent: Seq<Message<J>>, deal: Seq<int>, n: nat)
    requires
        deal.len() == 0,
    ensures
        dealt(sent, deal, n) == Multiset::<J>::empty(),
    decreases n,
{
    broadcast use vstd::seq_lib::group_to_multiset_ensures;

    if n > 0 {
        lemma_dealt_nothing(sent, deal, (n - 1) as nat);
    }
}

proof fn lemma_gathered_is_dealt<J>(
    sent: Seq<Message<J>>,
    deal: Seq<int>,
    lives: Seq<Seq<Event<J>>>,
    n: nat,
)
    requires
        delivered(sent, deal, lives),
        n <= lives.len(),
    ensures
        gathered(lives, n) == dealt(sent, deal, n),
    decreases n,
{
    if n > 0 {
        lemma_gathered_is_dealt(sent, deal, lives, (n - 1) as nat);
        lemma_acquired_is_taken(lives[n - 1]);
    }
}

/// Taken together, the workers acquired each job that was handed out exactly once.
pub proof fn law_each_job_once<J>(
    sent: Seq<Message<J>>,
    deal: Seq<int>,
    lives: Seq<Seq<Event<J>>>,
)
    requires
        delivered(sent, deal, lives),
    ensures
        gathered(lives, lives.len()) == works(sent.take(deal.len() as int)).to_multiset(),
{
    lemma_gathered_is_dealt(sent, deal, lives, lives.len());
    lemma_dealt(sent, deal, lives.len());
}

/// The worker has met with nothing that halts it.
pub open spec fn on_duty<J>(life: Seq<Event<J>>) -> bool {
    forall|i: int| 0 <= i < life.len() ==> !(#[trigger] life[i]).halts()
}

/// What has come of a shift by some time.
pub struct Stage<J> {
    /// Which worker each message went to that was handed out.
    pub deal: Seq<int>,
    /// What each worker has met with.
    pub lives: Seq<Seq<Event<J>>>,
}

/// The course of a shift of `n` workers.
pub open spec fn unfolds<J: Job>(
    sent: Seq<Message<J>>,
    n: nat,
    course: spec_fn(nat) -> Stage<J>,
) -> bool {
    forall|t: nat|
        (#[trigger] course(t)).lives.len() == n && shift(sent, course(t).deal, course(t).lives)
}

/// No message lies about forever: as long as one is left, no worker finds the queue closed, and
/// if there is a worker on duty, more is handed out later.
pub open spec fn attended<J>(sent: Seq<Message<J>>, course: spec_fn(nat) -> Stage<J>) -> bool {
    forall|t: nat|
        (#[trigger] course(t)).deal.len() < sent.len() ==> {
            &&& forall|w: int, i: int|
                0 <= w < course(t).lives.len() && 0 <= i < course(t).lives[w].len() ==> !(
                #[trigger] course(t).lives[w][i] is Closed)
            &&& forall|w: int|
                0 <= w < course(t).lives.len() && on_duty(#[trigger] course(t).lives[w])
                    ==> exists|u: nat|
                    t < u && course(t).deal.len() < (#[trigger] course(u)).deal.len()
        }
}

/// From any time on, there is one at which a closed crew has nothing left to hand out.
proof fn lemma_all_is_handed_out<J: Job>(
    jobs: Seq<J>,
    n: nat,
    course: spec_fn(nat) -> Stage<J>,
    t: nat,
) -> (u: nat)
    requires
        n > 0,
        unfolds(closing(jobs, n), n, course),
        attended(closing(jobs, n), course),
    ensures
        course(u).deal.len() == closing(jobs, n).len(),
    decreases closing(jobs, n).len() - course(t).deal.len(),
{
    let now = course(t);
    assert(shift(closing(jobs, n), now.deal, now.lives));
    if now.deal.len() == closing(jobs, n).len() {
        t
    } else {
        let w = law_someone_is_left_to_work(jobs, now.deal, now.lives);
        assert(on_duty(now.lives[w]));
        let u = choose|u: nat| t < u && now.deal.len() < (#[trigger] course(u)).deal.len();
        assert(shift(closing(jobs, n), course(u).deal, course(u).lives));
        lemma_all_is_handed_out(jobs, n, course, u)
    }
}

/// A crew that has at least one worker, was given jobs and was then told to stop comes to rest:
/// there is a time at which nothing is left of what it sent, every job was acquired exactly once
/// and performed, and every worker has halted, on a `Stop` of its own.
pub proof fn law_closed_crew_comes_to_rest<J: Job>(
    given: Seq<Message<J>>,
    n: nat,
    course: spec_fn(nat) -> Stage<J>,
) -> (t: nat)
    requires
        n > 0,
        all_work(given),
        unfolds(given + Seq::new(n, |i: int| Message::Stop), n, course),
        attended(given + Seq::new(n, |i: int| Message::Stop), course),
    ensures
        course(t).deal.len() == given.len() + n,
        gathered(course(t).lives, n) == works(given).to_multiset(),
        forall|k: int| 0 <= k < works(given).len() ==> performed(#[trigger] works(given)[k]),
        forall|w: int|
            0 <= w < n ==> (#[trigger] course(t).lives[w]).len() > 0 && course(t).lives[w].last()
                == Event::<J>::Taken(Message::Stop),
{
    law_stopping_closes(given, n);
    let t = lemma_all_is_handed_out(works(given), n, course, 0);
    assert(shift(closing(works(given), n), course(t).deal, course(t).lives));
    law_closed_crew_goes_home(works(given), course(t).deal, course(t).lives);
    t
}

/// `moment` is one at which the worker with these events performs a job.
pub open spec fn performing<J>(life: Seq<Event<J>>, moment: Moment) -> bool {
    job_turns(life, 0).contains(moment)
}

/// No worker but `w` keeps the others from acquiring messages.
pub open spec fn open_to(moments: Seq<Moment>, w: int) -> bool {
    forall|v: int| 0 <= v < moments.len() && v != w ==> !(#[trigger] moments[v]).exclusive
}

/// Performing jobs keeps no one from acquiring messages: while all the others perform jobs, a
/// worker that is on duty and at none may take the next message, whichever it is.
pub proof fn law_performing_keeps_no_one_out<J: Job>(
    sent: Seq<Message<J>>,
    deal: Seq<int>,
    lives: Seq<Seq<Event<J>>>,
    moments: Seq<Moment>,
    w: int,
)
    requires
        shift(sent, deal, lives),
        deal.len() < sent.len(),
        0 <= w < lives.len(),
        on_duty(lives[w]),
        dutiful(lives[w]),
        moments.len() == lives.len(),
        forall|v: int|
            0 <= v < lives.len() && v != w ==> performing(#[trigger] lives[v], moments[v]),
    ensures
        open_to(moments, w),
        shift(
            sent,
            deal.push(w),
            lives.update(w, lives[w].push(Event::Taken(sent[deal.len() as int]))),
        ),
{
    assert forall|v: int| 0 <= v < moments.len() && v != w implies !(
    #[trigger] moments[v]).exclusive by {
        assert(performing(lives[v], moments[v]));
        lemma_job_turns_are_open(lives[v], moments[v]);
    }
    let event = Event::Taken(sent[deal.len() as int]);
    let next = lives.update(w, lives[w].push(event));
    assert(deal.push(w).drop_last() =~= deal);
    assert(lives[w].push(event).drop_last() =~= lives[w]);
    assert forall|v: int| 0 <= v < next.len() implies taken(#[trigger] next[v]) == share(
        sent,
        deal.push(w),
        v,
    ) by {
        assert(taken(lives[v]) == share(sent, deal, v));
    }
    assert forall|v: int| 0 <= v < next.len() implies diligent(#[trigger] next[v]) by {
        assert(diligent(lives[v]));
    }
}

proof fn lemma_job_turns_are_open<J>(life: Seq<Event<J>>, moment: Moment)
    requires
        job_turns(life, 0).contains(moment),
    ensures
        !moment.exclusive,
    decreases life.len(),
{
    let init = life.drop_last();
    if life.len() > 0 {
        let i = choose|i: int|
            0 <= i < job_turns(life, 0).len() && job_turns(life, 0)[i] == moment;
        if i < job_turns(init, 0).len() {
            assert(job_turns(init, 0)[i] == moment);
            lemma_job_turns_are_open(init, moment);
        }
    }
}

} // verus!
