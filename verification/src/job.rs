//! Jobs, and the boxed closures that serve as ready-made jobs.

use vstd::prelude::*;

verus! {

/// An item of work to be executed in a thread pool.
pub trait Job: Send + Sized {
    /// Whether the job may be performed. Unless a job says otherwise, it may.
    open spec fn ready(&self) -> bool {
        true
    }

    /// Consume and execute the job.
    fn perform(self)
        requires
            self.ready(),
    ;
}

/// The job was handed to its `perform`, and `perform` came back: what it promises holds.
pub open spec fn performed<J: Job>(job: J) -> bool {
    call_ensures(J::perform, (job,), ())
}

/// Whatever job `J::from` makes of `f` is ready to be performed.
pub open spec fn makes_ready<J: Job + From<F>, F>(f: F) -> bool {
    forall|job: J| #[trigger] call_ensures(J::from, (f,), job) ==> job.ready()
}

/// `std::convert::From::from` from a type to that same type returns its argument unchanged.
pub assume_specification<Same>[ <Same as std::convert::From<Same>>::from ](t: Same) -> (r: Same)
    ensures
        r == t,
;

/// A closure without arguments, behind a box of unknown type.
trait FnBox: Send {
    /// The closure's precondition.
    spec fn callable(&self) -> bool;

    /// The closure's postcondition.
    spec fn called(&self) -> bool;

    /// Consume the box and call the closure in it.
    fn call_box(self: Box<Self>)
        requires
            self.callable(),
        ensures
            self.called(),
    ;
}

impl<F: FnOnce() + Send> FnBox for F {
    spec fn callable(&self) -> bool {
        call_requires(*self, ())
    }

    spec fn called(&self) -> bool {
        call_ensures(*self, (), ())
    }

    fn call_box(self: Box<F>) {
        (*self)()
    }
}

/// A boxed closure that can be performed as a job.
///
/// This allows pools to execute any kind of job, but with the increased cost of
/// dynamic invocation.
///
/// # Warning
///
/// Because of the epoch-based memory management of `crossbeam`, it's possible for `Task` pools
/// to deadlock if the closures own data that cause another thread to block. A closure that owns
/// the sender of a channel, for example, should drop it once it has sent.
pub struct Task<'a>(Box<dyn FnBox + 'a>);

impl<'a> Task<'a> {
    /// The postcondition of the closure in the box.
    pub closed spec fn called(&self) -> bool {
        self.0.called()
    }
}

impl<'a> Job for Task<'a> {
    closed spec fn ready(&self) -> bool {
        self.0.callable()
    }

    fn perform(self)
        ensures
            self.called(),
    {
        let Task(task) = self;
        task.call_box();
    }
}

/// The task that a closure becomes.
impl<'a, F> From<F> for Task<'a> where F: FnOnce() + Send + 'a {
    fn from(f: F) -> (task: Task<'a>)
        ensures
            task.ready() == call_requires(f, ()),
            task.called() == call_ensures(f, (), ()),
    {
        Task(Box::new(f))
    }
}

impl<'a, F> vstd::std_specs::convert::FromSpecImpl<F> for Task<'a> where F: FnOnce() + Send + 'a {
    open spec fn obeys_from_spec() -> bool {
        true
    }

    closed spec fn from_spec(f: F) -> Task<'a> {
        Task(Box::new(f))
    }
}

/// A job can be given to a pool of its kind wherever it could be performed.
pub proof fn law_job_is_ready<J: Job>(job: J)
    requires
        job.ready(),
    ensures
        makes_ready::<J, J>(job),
{
}

/// A closure can be given to a pool of tasks wherever it could be called.
pub proof fn law_task_is_ready<'a, F: FnOnce() + Send + 'a>(f: F)
    requires
        call_requires(f, ()),
    ensures
        makes_ready::<Task<'a>, F>(f),
{
}

/// The task that was made of a closure may be performed just where the closure may be called.
pub proof fn law_task_is_ready_as_its_closure<'a, F: FnOnce() + Send + 'a>(f: F, task: Task<'a>)
    requires
        call_ensures(<Task<'a> as From<F>>::from, (f,), task),
    ensures
        task.ready() <==> call_requires(f, ()),
{
}

/// Performing the task that was made of a closure calls the closure.
pub proof fn law_task_calls_its_closure<'a, F: FnOnce() + Send + 'a>(f: F, task: Task<'a>)
    requires
        call_ensures(<Task<'a> as From<F>>::from, (f,), task),
        performed(task),
    ensures
        call_ensures(f, (), ()),
{
}

/// What was performed went through its own `perform`.
pub proof fn law_performed_is_a_call<J: Job>(job: J)
    ensures
        performed(job) <==> call_ensures(J::perform, (job,), ()),
{
}

} // verus!
