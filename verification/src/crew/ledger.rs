//! The jobs that a worker has performed.

use crate::crew::Attempts;
use crate::job::{performed, Job};
use crate::message::Moment;
use vstd::prelude::*;

verus! {

/// A record of the jobs that a worker has performed, and of when it did.
pub struct Ledger<J> {
    done: Ghost<Seq<J>>,
    turns: Ghost<Seq<Moment>>,
}

impl<J> Ledger<J> {
    /// Every job that was performed, oldest first.
    pub closed spec fn done(&self) -> Seq<J> {
        self.done@
    }

    /// When each of these jobs was performed.
    pub closed spec fn turns(&self) -> Seq<Moment> {
        self.turns@
    }

    /// A record of no job.
    pub fn new() -> (ledger: Ledger<J>)
        ensures
            ledger.done() == Seq::<J>::empty(),
            ledger.turns() == Seq::<Moment>::empty(),
    {
        Ledger { done: Ghost(Seq::empty()), turns: Ghost(Seq::empty()) }
    }
}

impl<J: Job> Ledger<J> {
    /// Perform a job and record it, along with the point that the worker with this `inbox` is
    /// at. No other worker may be kept from acquiring messages meanwhile. A panic of the job is
    /// passed on.
    pub fn perform<A: Attempts>(&mut self, job: J, inbox: &A)
        requires
            job.ready(),
            !inbox.moment().exclusive,
        ensures
            performed(job),
            final(self).done() == old(self).done().push(job),
            final(self).turns() == old(self).turns().push(inbox.moment()),
    {
        job.perform();
        self.done = Ghost(self.done@.push(job));
        self.turns = Ghost(self.turns@.push(inbox.moment()));
    }
}

/// A job is entered in the ledger once, behind the others and along with the point that the
/// worker is at, and has then gone through `perform`.
pub proof fn law_ledger_tells_what_was_performed<J: Job, A: Attempts>(
    ledger: &mut Ledger<J>,
    job: J,
    inbox: &A,
)
    requires
        call_ensures(Ledger::<J>::perform::<A>, (ledger, job, inbox), ()),
    ensures
        call_ensures(J::perform, (job,), ()),
        final(ledger).done() == old(ledger).done().push(job),
        final(ledger).turns() == old(ledger).turns().push(inbox.moment()),
{
}

} // verus!
