//! The Chase-Lev deque that carries messages from a crew to its workers.

use crate::crew::Attempts;
use crate::job::Job;
use crate::message::{after, Event, Message, Moment};
use crossbeam::sync::chase_lev;
use crossbeam::sync::chase_lev::Worker as Bottom;
use vstd::prelude::*;

verus! {

/// `crossbeam::sync::chase_lev::Worker`: the end of a deque that items are pushed onto.
#[verifier::external_type_specification]
#[verifier::external_body]
#[verifier::reject_recursive_types(T)]
pub struct ExBottom<T>(Bottom<T>);

/// `crossbeam::sync::chase_lev::Stealer`: a handle on the end of a deque that items are stolen
/// from.
#[verifier::external_type_specification]
#[verifier::external_body]
#[verifier::reject_recursive_types(T)]
pub struct ExStealer<T>(chase_lev::Stealer<T>);

/// `crossbeam::sync::chase_lev::deque` returns the two ends of a new, empty deque.
pub assume_specification<T>[ chase_lev::deque::<T> ]() -> (ends: (
    Bottom<T>,
    chase_lev::Stealer<T>,
));

/// `Clone` for `crossbeam::sync::chase_lev::Stealer`: the clone is a handle on the same deque.
pub assume_specification<T>[ <chase_lev::Stealer<T> as Clone>::clone ](
    stealer: &chase_lev::Stealer<T>,
) -> (other: chase_lev::Stealer<T>)
    ensures
        other == *stealer,
;

/// The two ends belong to one deque: a single call of `chase_lev::deque` returned both.
pub open spec fn joined<J>(
    bottom: Bottom<Message<J>>,
    stealer: chase_lev::Stealer<Message<J>>,
) -> bool {
    call_ensures(chase_lev::deque::<Message<J>>, (), (bottom, stealer))
}

/// The pushing end of a deque, with a record of what was pushed.
#[verifier::reject_recursive_types(J)]
pub struct Outbox<J> {
    bottom: Bottom<Message<J>>,
    log: Ghost<Seq<Message<J>>>,
}

impl<J> Outbox<J> {
    /// The end of the deque itself.
    pub closed spec fn bottom(&self) -> Bottom<Message<J>> {
        self.bottom
    }

    /// Everything that was pushed, oldest first.
    pub closed spec fn log(&self) -> Seq<Message<J>> {
        self.log@
    }
}

impl<J: Job> Outbox<J> {
    /// `crossbeam::sync::chase_lev::Worker::push`: the message is added behind everything that
    /// was pushed before it, and the end stays that of the same deque.
    #[verifier::external_body]
    pub(crate) fn push(&mut self, message: Message<J>)
        requires
            message.ready(),
        ensures
            final(self).bottom() == old(self).bottom(),
            final(self).log() == old(self).log().push(message),
    {
        self.bottom.push(message)
    }
}

/// The stealing end of a deque as a crew keeps it: nothing can be stolen through it, but it can
/// be opened to the workers, and counts how often it was.
#[verifier::reject_recursive_types(J)]
pub struct Source<J> {
    stealer: chase_lev::Stealer<Message<J>>,
    opened: Ghost<nat>,
}

/// The stealing end of a deque as a worker has it, with a record of what its attempts to steal
/// came to.
#[verifier::reject_recursive_types(J)]
pub struct Inbox<J> {
    stealer: chase_lev::Stealer<Message<J>>,
    log: Ghost<Seq<Event<J>>>,
}

impl<J> Source<J> {
    /// The end of the deque itself.
    pub closed spec fn stealer(&self) -> chase_lev::Stealer<Message<J>> {
        self.stealer
    }

    /// How many inboxes were opened.
    pub closed spec fn opened(&self) -> nat {
        self.opened@
    }

    /// Open an inbox for a worker.
    pub(crate) fn inbox(&mut self) -> (inbox: Inbox<J>)
        ensures
            final(self).stealer() == old(self).stealer(),
            final(self).opened() == old(self).opened() + 1,
            inbox.stealer() == old(self).stealer(),
            inbox.log() == Seq::<Event<J>>::empty(),
    {
        self.opened = Ghost(self.opened@ + 1);
        Inbox { stealer: self.stealer.clone(), log: Ghost(Seq::empty()) }
    }
}

impl<J> Inbox<J> {
    /// The end of the deque itself.
    pub closed spec fn stealer(&self) -> chase_lev::Stealer<Message<J>> {
        self.stealer
    }

    /// What every attempt to steal came to, oldest first.
    pub closed spec fn log(&self) -> Seq<Event<J>> {
        self.log@
    }
}

impl<J> Attempts for Inbox<J> {
    /// Anyone may steal at any time.
    open spec fn moment(&self) -> Moment {
        after(self.log().len())
    }
}

impl<J: Job> Inbox<J> {
    /// `crossbeam::sync::chase_lev::Stealer::steal`: the oldest message of the deque, or
    /// `Missed` where another thread was faster, or `Nothing` where the deque was empty. The
    /// attempt is recorded, and the end stays that of the same deque. Which of these it is
    /// depends on the other threads, and so does which message is the oldest: the contract says
    /// neither. A message comes out as it was pushed, and `Outbox::push` admits no job that is
    /// not ready.
    #[verifier::external_body]
    pub(crate) fn steal(&mut self) -> (event: Event<J>)
        ensures
            final(self).stealer() == old(self).stealer(),
            final(self).log() == old(self).log().push(event),
            event matches Event::Taken(message) ==> message.ready(),
            !(event is Closed),
    {
        match self.stealer.steal() {
            chase_lev::Steal::Data(message) => Event::Taken(message),
            chase_lev::Steal::Abort => Event::Missed,
            chase_lev::Steal::Empty => Event::Nothing,
        }
    }
}

/// Make a deque that nothing was pushed onto yet and no inbox was opened to.
pub(crate) fn open<J>() -> (ends: (Outbox<J>, Source<J>))
    ensures
        joined(ends.0.bottom(), ends.1.stealer()),
        ends.0.log() == Seq::<Message<J>>::empty(),
        ends.1.opened() == 0,
{
    let (bottom, stealer) = chase_lev::deque();
    (
        Outbox { bottom, log: Ghost(Seq::empty()) },
        Source { stealer, opened: Ghost(0) },
    )
}

/// Stealing keeps no one out, and a worker's record of attempts tells how many it made.
pub proof fn law_stealing_is_open<J>(inbox: &Inbox<J>)
    ensures
        !inbox.moment().exclusive,
        inbox.moment().attempts == inbox.log().len(),
{
}

/// An inbox is opened to the deque of its source, with no attempt made.
proof fn law_inbox_shares_the_deque<J>(source: &mut Source<J>, inbox: Inbox<J>)
    requires
        call_ensures(Source::<J>::inbox, (source,), inbox),
    ensures
        inbox.stealer == old(source).stealer,
        final(source).stealer == old(source).stealer,
        final(source).opened@ == old(source).opened@ + 1,
        inbox.log@.len() == 0,
{
}

/// Ends that are joined come from one call of `chase_lev::deque`.
pub proof fn law_joined_ends_are_one_deque<J>(
    bottom: Bottom<Message<J>>,
    stealer: chase_lev::Stealer<Message<J>>,
)
    requires
        joined(bottom, stealer),
    ensures
        call_ensures(chase_lev::deque::<Message<J>>, (), (bottom, stealer)),
{
}

} // verus!
