//! The rests that workers ask for.

use crate::crew::Attempts;
use crate::message::Moment;
use std::time::Duration;
use vstd::prelude::*;

verus! {

/// How a worker asks to spend the time before its next attempt.
#[derive(Clone, Copy, Debug, PartialEq, Eq)]
pub enum Rest {
    /// Try again at once.
    Skip,
    /// Let other threads go first.
    Yield,
    /// Sleep for at least this long.
    Sleep(Duration),
}

/// A function that spends rests, with a record of those that it was asked for, and of when it
/// was.
pub struct Rests<R> {
    rest: R,
    asked: Ghost<Seq<Rest>>,
    turns: Ghost<Seq<Moment>>,
}

impl<R: Fn(Rest)> Rests<R> {
    /// The function that spends the rests.
    pub closed spec fn rest(&self) -> R {
        self.rest
    }

    /// Every rest that was asked for, oldest first.
    pub closed spec fn asked(&self) -> Seq<Rest> {
        self.asked@
    }

    /// When each of these rests was asked for.
    pub closed spec fn turns(&self) -> Seq<Moment> {
        self.turns@
    }

    /// Keep a record for a function that was asked for no rest yet.
    pub fn new(rest: R) -> (rests: Rests<R>)
        ensures
            rests.rest() == rest,
            rests.asked() == Seq::<Rest>::empty(),
            rests.turns() == Seq::<Moment>::empty(),
    {
        Rests { rest, asked: Ghost(Seq::empty()), turns: Ghost(Seq::empty()) }
    }

    /// Ask for a rest and record it, along with the point that the worker with this `inbox` is
    /// at. No other worker may be kept from acquiring messages meanwhile. It returns when the
    /// rest is over.
    pub fn ask<A: Attempts>(&mut self, rest: Rest, inbox: &A)
        requires
            call_requires(old(self).rest(), (rest,)),
            !inbox.moment().exclusive,
        ensures
            final(self).rest() == old(self).rest(),
            final(self).asked() == old(self).asked().push(rest),
            final(self).turns() == old(self).turns().push(inbox.moment()),
            call_ensures(old(self).rest(), (rest,), ()),
    {
        (self.rest)(rest);
        self.asked = Ghost(self.asked@.push(rest));
        self.turns = Ghost(self.turns@.push(inbox.moment()));
    }
}

/// A rest that is asked for is spent by the function, once, and entered behind the others along
/// with the point that the worker is at.
pub proof fn law_rests_are_spent<R: Fn(Rest), A: Attempts>(
    rests: &mut Rests<R>,
    rest: Rest,
    inbox: &A,
)
    requires
        call_ensures(Rests::<R>::ask::<A>, (rests, rest, inbox), ()),
    ensures
        call_ensures(old(rests).rest(), (rest,), ()),
        final(rests).rest() == old(rests).rest(),
        final(rests).asked() == old(rests).asked().push(rest),
        final(rests).turns() == old(rests).turns().push(inbox.moment()),
{
}

/// A new record is for the function that it was made for, and tells of no rest.
pub proof fn law_new_rests_are_unasked<R: Fn(Rest)>(rest: R, rests: Rests<R>)
    requires
        call_ensures(Rests::<R>::new, (rest,), rests),
    ensures
        rests.rest() == rest,
        rests.asked().len() == 0,
        rests.turns().len() == 0,
{
}

} // verus!
