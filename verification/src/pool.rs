//! Pools that put the workers of a crew on threads.

use crate::crew::{gave, Crew, Parameters, Rest, Rests, Worker};
use crate::job::{makes_ready, performed, Job, Task};
use crate::message::{Event, Message, Moment};
use crossbeam::Scope;
use vstd::prelude::*;

verus! {

/// `crossbeam::Scope`: the threads that must have ended before a stack frame goes away.
#[verifier::external_type_specification]
#[verifier::external_body]
pub struct ExScope<'a>(crossbeam::Scope<'a>);

/// `crossbeam::Scope::spawn`: a new thread executes the worker's main loop, and the scope does
/// not end before that thread has. What the thread does is not told to the caller. Spawning
/// panics where the system has no thread to give.
#[verifier::external_body]
fn launch<'scope, W, R>(scope: &Scope<'scope>, worker: W, rests: Rests<R>) where
    W: Worker + 'scope,
    R: Fn(Rest) + Send + 'scope,

    requires
        worker.wf(),
        forall|r: Rest| call_requires(rests.rest(), (r,)),
{
    let (mut worker, mut rests) = (worker, rests);
    scope.spawn(move || {
        worker.run(&mut rests);
    });
}

/// The worker was put on a thread of its own in `scope`.
pub closed spec fn launched<'scope, W, R>(
    scope: &Scope<'scope>,
    worker: W,
    rests: Rests<R>,
) -> bool where W: Worker + 'scope, R: Fn(Rest) + Send + 'scope {
    call_ensures(launch::<W, R>, (scope, worker, rests), ())
}

/// `member` is a worker that `crew` has hired with this `id` and that has not run yet.
pub open spec fn enlisted<C: Crew>(crew: C, member: C::Member, id: nat) -> bool {
    &&& crew.employs(member)
    &&& member.wf()
    &&& member.id() == id
    &&& member.heard() == Seq::<Event<C::Job>>::empty()
    &&& member.done() == Seq::<C::Job>::empty()
    &&& member.turns() == Seq::<Moment>::empty()
}

/// The worker that `crew` numbered `id` was put on a thread of its own in `scope`, where it asks
/// `rest` for its rests.
pub open spec fn staffed<'scope, C, R>(
    scope: &Scope<'scope>,
    crew: C,
    rest: R,
    id: nat,
) -> bool where C: Crew, C::Member: 'scope, R: Fn(Rest) + Send + 'scope {
    exists|member: C::Member, rests: Rests<R>| #[trigger]
        launched(scope, member, rests) && enlisted(crew, member, id) && rests.rest() == rest
            && rests.asked() == Seq::<Rest>::empty() && rests.turns() == Seq::<Moment>::empty()
}

/// As many of the crew's workers as `n` says were put on threads of `scope`, no two of them the
/// same, and all of them ask `rest` for their rests.
pub open spec fn posted<'scope, C, R>(
    scope: &Scope<'scope>,
    crew: C,
    rest: R,
    n: nat,
) -> bool where C: Crew, C::Member: 'scope, R: Fn(Rest) + Send + 'scope {
    exists|posts: Seq<(C::Member, Rests<R>)>|
        posts.len() == n && #[trigger] posts.no_duplicates() && forall|i: int|
            0 <= i < posts.len() ==> {
                let (member, rests) = #[trigger] posts[i];
                &&& launched(scope, member, rests)
                &&& crew.employs(member)
                &&& member.wf()
                &&& member.id() == i
                &&& member.heard().len() == 0
                &&& rests.rest() == rest
            }
}

/// A crew made from `settings` that has hired all of its workers and sent nothing.
pub open spec fn full<C: Crew>(crew: C, settings: C::Settings) -> bool {
    &&& crew.wf()
    &&& crew.settings() == settings
    &&& crew.hired() == settings.workers()
    &&& crew.sent() == Seq::<Message<C::Job>>::empty()
}

/// A crew of workers that perform jobs on separate threads.
///
/// Even after the pool is closed, the workers continue processing outstanding jobs, then halt
/// when there are no more.
pub struct Pool<C> where C: Crew {
    crew: C,
}

impl<C> Pool<C> where C: Crew {
    /// The crew that the pool gives its jobs to.
    pub closed spec fn crew(&self) -> C {
        self.crew
    }

    /// Create a new, scoped pool: each worker of its crew runs on a thread of `scope`, and asks
    /// `rest` for the rests that it needs.
    pub fn scoped<'scope, R>(scope: &Scope<'scope>, settings: C::Settings, rest: R) -> (pool: Pool<
        C,
    >) where C: 'scope, C::Member: 'scope, R: Fn(Rest) + Copy + Send + 'scope
        requires
            forall|r: Rest| call_requires(rest, (r,)),
        ensures
            full(pool.crew(), settings),
            forall|id: nat|
                id < settings.workers() ==> #[trigger] staffed(scope, pool.crew(), rest, id),
            posted(scope, pool.crew(), rest, settings.workers() as nat),
    {
        let mut crew = C::new(settings);
        let n = settings.num_workers();
        for i in 0..n
            invariant
                n == settings.workers(),
                forall|r: Rest| call_requires(rest, (r,)),
                crew.wf(),
                crew.settings() == settings,
                crew.hired() == i,
                crew.sent() == Seq::<Message<C::Job>>::empty(),
                forall|id: nat| id < i ==> #[trigger] staffed(scope, crew, rest, id),
        {
            let ghost before = crew;
            let worker = crew.hire();
            let rests = Rests::new(rest);
            launch(scope, worker, rests);
            proof {
                assert(launched(scope, worker, rests));
                assert forall|id: nat| id < i + 1 implies #[trigger] staffed(
                    scope,
                    crew,
                    rest,
                    id,
                ) by {
                    if id < i {
                        assert(staffed(scope, before, rest, id));
                    }
                }
            }
        }
        proof {
            lemma_posts(scope, crew, rest, n as nat);
        }
        Pool { crew: crew }
    }

    /// Create a new pool, and the workers that are to be put on threads of their own.
    pub fn new(settings: C::Settings) -> (made: (Pool<C>, Vec<C::Member>))
        ensures
            full(made.0.crew(), settings),
            made.1.len() == settings.workers(),
            forall|i: int|
                0 <= i < made.1.len() ==> enlisted(
                    made.0.crew(),
                    #[trigger] made.1[i],
                    i as nat,
                ),
    {
        let mut crew = C::new(settings);
        let mut workers: Vec<C::Member> = Vec::new();
        let n = settings.num_workers();
        for k in 0..n
            invariant
                n == settings.workers(),
                crew.wf(),
                crew.settings() == settings,
                crew.hired() == k,
                crew.sent() == Seq::<Message<C::Job>>::empty(),
                workers.len() == k,
                forall|i: int|
                    0 <= i < workers.len() ==> enlisted(crew, #[trigger] workers[i], i as nat),
        {
            let worker = crew.hire();
            workers.push(worker);
        }
        (Pool { crew: crew }, workers)
    }

    /// Give a job to the pool's crew.
    pub fn push<F>(&mut self, f: F) where C::Job: From<F>
        requires
            old(self).crew().wf(),
            makes_ready::<C::Job, F>(f),
        ensures
            final(self).crew().wf(),
            final(self).crew().settings() == old(self).crew().settings(),
            final(self).crew().hired() == old(self).crew().hired(),
            gave::<C::Job, F>(f, old(self).crew().sent(), final(self).crew().sent()),
            forall|m: C::Member| #[trigger]
                final(self).crew().employs(m) == old(self).crew().employs(m),
    {
        self.crew.give(f);
    }

    /// Tell each worker to stop.
    pub fn close(&mut self)
        requires
            old(self).crew().wf(),
        ensures
            final(self).crew().wf(),
            final(self).crew().settings() == old(self).crew().settings(),
            final(self).crew().hired() == old(self).crew().hired(),
            final(self).crew().sent() == old(self).crew().sent() + Seq::new(
                old(self).crew().settings().workers() as nat,
                |i: int| Message::Stop,
            ),
            forall|m: C::Member| #[trigger]
                final(self).crew().employs(m) == old(self).crew().employs(m),
    {
        self.crew.stop();
    }
}

/// The workers that a crew hires one after the other have the numbers that follow each other,
/// so that no two of them are the same.
pub proof fn law_numbers_do_not_repeat<C: Crew>(crew: C, members: Seq<C::Member>)
    requires
        forall|i: int|
            0 <= i < members.len() ==> enlisted(crew, #[trigger] members[i], i as nat),
    ensures
        forall|i: int| 0 <= i < members.len() ==> (#[trigger] members[i]).id() == i,
        members.no_duplicates(),
{
}

/// A scoped pool and an unscoped one that are made from the same settings have crews that differ
/// in nothing that a crew tells of itself.
pub proof fn law_pools_are_alike<C: Crew>(one: C, other: C, settings: C::Settings)
    requires
        full(one, settings),
        full(other, settings),
    ensures
        one.settings() == other.settings(),
        one.hired() == other.hired(),
        one.sent() == other.sent(),
{
}

/// Who was put on a thread was handed to `crossbeam`'s `spawn` by `launch`.
proof fn law_launched_is_spawned<'scope, W, R>(
    scope: &Scope<'scope>,
    worker: W,
    rests: Rests<R>,
) where W: Worker + 'scope, R: Fn(Rest) + Send + 'scope
    ensures
        launched(scope, worker, rests) <==> call_ensures(
            launch::<W, R>,
            (scope, worker, rests),
            (),
        ),
{
}

/// Where a crew's worker of some number is staffed, there is a worker that the crew employs, with
/// that number, which has met with nothing and done nothing, and which was put on a thread of the
/// scope with this way to rest.
pub proof fn law_staffed_is_on_a_thread<'scope, C, R>(
    scope: &Scope<'scope>,
    crew: C,
    rest: R,
    id: nat,
) -> (post: (C::Member, Rests<R>)) where C: Crew, C::Member: 'scope, R: Fn(Rest) + Send + 'scope
    requires
        staffed(scope, crew, rest, id),
    ensures
        launched(scope, post.0, post.1),
        crew.employs(post.0),
        post.0.wf(),
        post.0.id() == id,
        post.0.heard().len() == 0,
        post.0.done().len() == 0,
        post.1.rest() == rest,
        post.1.asked().len() == 0,
{
    let (member, rests) = choose|member: C::Member, rests: Rests<R>| #[trigger]
        launched(scope, member, rests) && enlisted(crew, member, id) && rests.rest() == rest
            && rests.asked() == Seq::<Rest>::empty() && rests.turns() == Seq::<Moment>::empty();
    (member, rests)
}

/// A scoped pool has put as many workers on threads of its scope as its settings ask for, no two
/// of them the same, all of them employed by its crew, and all with the way to rest that it was
/// given. Its crew has hired these and no other, and has sent nothing.
pub proof fn law_scoped_puts_every_worker_on_a_thread<'scope, C, R>(
    scope: &Scope<'scope>,
    settings: C::Settings,
    rest: R,
    pool: Pool<C>,
) -> (posts: Seq<(C::Member, Rests<R>)>) where
    C: Crew + 'scope,
    C::Member: 'scope,
    R: Fn(Rest) + Copy + Send + 'scope,

    requires
        call_ensures(Pool::<C>::scoped::<R>, (scope, settings, rest), pool),
    ensures
        posts.len() == settings.workers(),
        posts.no_duplicates(),
        forall|i: int|
            0 <= i < posts.len() ==> {
                let (member, rests) = #[trigger] posts[i];
                &&& launched(scope, member, rests)
                &&& pool.crew().employs(member)
                &&& member.wf()
                &&& member.id() == i
                &&& member.heard().len() == 0
                &&& rests.rest() == rest
            },
        pool.crew().wf(),
        pool.crew().settings() == settings,
        pool.crew().hired() == settings.workers(),
        pool.crew().sent().len() == 0,
{
    choose|posts: Seq<(C::Member, Rests<R>)>|
        posts.len() == settings.workers() && #[trigger] posts.no_duplicates() && forall|i: int|
            0 <= i < posts.len() ==> {
                let (member, rests) = #[trigger] posts[i];
                &&& launched(scope, member, rests)
                &&& pool.crew().employs(member)
                &&& member.wf()
                &&& member.id() == i
                &&& member.heard().len() == 0
                &&& rests.rest() == rest
            }
}

proof fn lemma_posts<'scope, C, R>(
    scope: &Scope<'scope>,
    crew: C,
    rest: R,
    n: nat,
) -> (posts: Seq<(C::Member, Rests<R>)>) where
    C: Crew,
    C::Member: 'scope,
    R: Fn(Rest) + Send + 'scope,

    requires
        forall|id: nat| id < n ==> #[trigger] staffed(scope, crew, rest, id),
    ensures
        posts.len() == n,
        posts.no_duplicates(),
        forall|i: int|
            0 <= i < posts.len() ==> {
                let (member, rests) = #[trigger] posts[i];
                &&& launched(scope, member, rests)
                &&& crew.employs(member)
                &&& member.wf()
                &&& member.id() == i
                &&& member.heard().len() == 0
                &&& rests.rest() == rest
            },
    decreases n,
{
    if n == 0 {
        Seq::empty()
    } else {
        let last = (n - 1) as nat;
        assert(staffed(scope, crew, rest, last));
        let init = lemma_posts(scope, crew, rest, last);
        let post = law_staffed_is_on_a_thread(scope, crew, rest, last);
        init.push(post)
    }
}

/// An unscoped pool comes with as many workers as its settings ask for, no two of them the same,
/// all of them employed by its crew. Its crew has hired these and no other, and has sent nothing.
pub proof fn law_new_comes_with_every_worker<C: Crew>(
    settings: C::Settings,
    made: (Pool<C>, Vec<C::Member>),
)
    requires
        call_ensures(Pool::<C>::new, (settings,), made),
    ensures
        made.1.len() == settings.workers(),
        made.1@.no_duplicates(),
        forall|i: int|
            0 <= i < made.1.len() ==> {
                let member = #[trigger] made.1[i];
                &&& made.0.crew().employs(member)
                &&& member.wf()
                &&& member.id() == i
                &&& member.heard().len() == 0
                &&& member.done().len() == 0
            },
        made.0.crew().wf(),
        made.0.crew().settings() == settings,
        made.0.crew().hired() == settings.workers(),
        made.0.crew().sent().len() == 0,
{
    assert forall|i: int| 0 <= i < made.1.len() implies ({
        let member = #[trigger] made.1[i];
        &&& made.0.crew().employs(member)
        &&& member.wf()
        &&& member.id() == i
        &&& member.heard().len() == 0
        &&& member.done().len() == 0
    }) by {
        assert(enlisted(made.0.crew(), made.1[i], i as nat));
    }
    law_numbers_do_not_repeat(made.0.crew(), made.1@);
}

/// Pushing sends one job, the one that was made of what was pushed, behind all that was sent
/// before, which stays. Nothing else changes.
pub proof fn law_pushing_sends_one_job<C: Crew, F>(pool: &mut Pool<C>, f: F) where C::Job: From<F>
    requires
        call_ensures(Pool::<C>::push::<F>, (pool, f), ()),
    ensures
        final(pool).crew().wf(),
        final(pool).crew().sent().len() == old(pool).crew().sent().len() + 1,
        forall|i: int|
            0 <= i < old(pool).crew().sent().len() ==> #[trigger] final(pool).crew().sent()[i]
                == old(pool).crew().sent()[i],
        final(pool).crew().sent().last() matches Message::Work(job) && call_ensures(
            <C::Job as From<F>>::from,
            (f,),
            job,
        ),
        final(pool).crew().settings() == old(pool).crew().settings(),
        final(pool).crew().hired() == old(pool).crew().hired(),
{
}

/// Pushing a job as it is sends that very job.
pub proof fn law_pushed_job_is_sent<C: Crew>(pool: &mut Pool<C>, job: C::Job)
    requires
        call_ensures(Pool::<C>::push::<C::Job>, (pool, job), ()),
    ensures
        final(pool).crew().sent() == old(pool).crew().sent().push(Message::Work(job)),
{
}

/// Pushing a closure to a pool of tasks sends a task that calls the closure when performed.
pub proof fn law_pushed_closure_is_called<'a, C, F>(pool: &mut Pool<C>, f: F) where
    C: Crew<Job = Task<'a>>,
    F: FnOnce() + Send + 'a,

    requires
        call_ensures(Pool::<C>::push::<F>, (pool, f), ()),
    ensures
        final(pool).crew().sent().last() matches Message::Work(task) && (performed(task)
            ==> call_ensures(f, (), ())),
{
}

/// Closing a pool adds a `Stop` for each of its workers behind all that was sent before, which
/// stays.
pub proof fn law_closing_stops_each_worker<C: Crew>(pool: &mut Pool<C>)
    requires
        call_ensures(Pool::<C>::close, (pool,), ()),
    ensures
        final(pool).crew().wf(),
        final(pool).crew().sent().len() == old(pool).crew().sent().len() + old(
            pool,
        ).crew().settings().workers(),
        forall|i: int|
            0 <= i < final(pool).crew().sent().len() ==> #[trigger] final(pool).crew().sent()[i]
                == (if i < old(pool).crew().sent().len() {
                old(pool).crew().sent()[i]
            } else {
                Message::Stop
            }),
        final(pool).crew().settings() == old(pool).crew().settings(),
        final(pool).crew().hired() == old(pool).crew().hired(),
{
}

/// A pool tells of the crew that it holds.
proof fn law_pool_tells_what_it_holds<C: Crew>(pool: Pool<C>)
    ensures
        pool.crew() == pool.crew,
{
}

/// A pool can be made from any settings, whichever way to rest a scoped one is given. As long as
/// its crew is sound, anything that a job can be made of can be pushed to it, and it can be
/// closed.
pub proof fn law_pools_are_at_hand<'scope, C, R, F>(
    scope: &Scope<'scope>,
    settings: C::Settings,
    rest: R,
    pool: &mut Pool<C>,
    f: F,
) where
    C: Crew + 'scope,
    C::Member: 'scope,
    C::Job: From<F>,
    R: Fn(Rest) + Copy + Send + 'scope,

    ensures
        call_requires(Pool::<C>::new, (settings,)),
        (forall|r: Rest| call_requires(rest, (r,))) ==> call_requires(
            Pool::<C>::scoped::<R>,
            (scope, settings, rest),
        ),
        old(pool).crew().wf() && (forall|job: C::Job| #[trigger]
            call_ensures(<C::Job as From<F>>::from, (f,), job) ==> job.ready()) ==> call_requires(
            Pool::<C>::push::<F>,
            (pool, f),
        ),
        old(pool).crew().wf() ==> call_requires(Pool::<C>::close, (pool,)),
{
}

} // verus!
