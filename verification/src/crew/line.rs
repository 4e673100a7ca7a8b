//! The channel that carries messages from a crew to its workers.

use crate::crew::Attempts;
use crate::job::Job;
use crate::message::{Event, Message, Moment};
use std::sync::mpsc;
use std::sync::{Arc, Mutex, MutexGuard};
use vstd::prelude::*;

verus! {

/// `std::sync::mpsc::Sender`: the sending half of a channel.
#[verifier::external_type_specification]
#[verifier::external_body]
#[verifier::reject_recursive_types(T)]
pub struct ExSender<T>(mpsc::Sender<T>);

/// `std::sync::mpsc::Receiver`: the receiving half of a channel.
#[verifier::external_type_specification]
#[verifier::external_body]
#[verifier::reject_recursive_types(T)]
pub struct ExReceiver<T>(mpsc::Receiver<T>);

/// `std::sync::Mutex`: a value that one thread at a time has access to.
#[verifier::external_type_specification]
#[verifier::external_body]
#[verifier::reject_recursive_types(T)]
pub struct ExMutex<T: ?Sized>(Mutex<T>);

/// `std::sync::MutexGuard`: the access itself, which ends when the guard is dropped.
#[verifier::external_type_specification]
#[verifier::external_body]
#[verifier::reject_recursive_types(T)]
pub struct ExMutexGuard<'a, T: ?Sized + 'a>(MutexGuard<'a, T>);

/// `std::sync::mpsc::channel` returns the two halves of a new, empty channel.
pub assume_specification<T>[ mpsc::channel::<T> ]() -> (halves: (
    mpsc::Sender<T>,
    mpsc::Receiver<T>,
));

/// `std::sync::Mutex::new` returns a mutex that holds the value.
#[verifier::external_body]
fn enclose<T>(t: T) -> (mutex: Mutex<T>) {
    Mutex::new(t)
}

/// The sender and the shared receiver belong to one channel: a single call of `mpsc::channel`
/// returned both, and the receiver went into the mutex.
pub closed spec fn joined<J>(
    sender: mpsc::Sender<Message<J>>,
    receiver: Arc<Mutex<mpsc::Receiver<Message<J>>>>,
) -> bool {
    exists|half: mpsc::Receiver<Message<J>>| #[trigger]
        call_ensures(mpsc::channel::<Message<J>>, (), (sender, half)) && call_ensures(
            enclose::<mpsc::Receiver<Message<J>>>,
            (half,),
            *receiver,
        )
}

/// The shared receiver went into its mutex here.
pub closed spec fn enclosed<J>(receiver: Arc<Mutex<mpsc::Receiver<Message<J>>>>) -> bool {
    exists|half: mpsc::Receiver<Message<J>>| #[trigger]
        call_ensures(enclose::<mpsc::Receiver<Message<J>>>, (half,), *receiver)
}

/// The sending half of a channel, with a record of what was sent.
#[verifier::reject_recursive_types(J)]
pub struct Outbox<J> {
    sender: mpsc::Sender<Message<J>>,
    log: Ghost<Seq<Message<J>>>,
}

impl<J> Outbox<J> {
    /// The sending half itself.
    pub closed spec fn sender(&self) -> mpsc::Sender<Message<J>> {
        self.sender
    }

    /// Everything that was sent, oldest first.
    pub closed spec fn log(&self) -> Seq<Message<J>> {
        self.log@
    }
}

impl<J: Job> Outbox<J> {
    /// `std::sync::mpsc::Sender::send`: the message is added behind everything that was sent
    /// before it, and the sender stays that of the same channel. Sending fails only once the
    /// receiver is gone, and the caller shows that it still has it.
    #[verifier::external_body]
    pub(crate) fn send(&mut self, message: Message<J>, source: &Source<J>)
        requires
            message.ready(),
            joined(old(self).sender(), source.receiver()),
        ensures
            final(self).sender() == old(self).sender(),
            final(self).log() == old(self).log().push(message),
    {
        self.sender.send(message).unwrap()
    }
}

/// The receiver as a crew keeps it: nothing can be received through it, but it can be opened to
/// the workers, and counts how often it was.
#[verifier::reject_recursive_types(J)]
pub struct Source<J> {
    receiver: Arc<Mutex<mpsc::Receiver<Message<J>>>>,
    opened: Ghost<nat>,
}

/// The receiver as a worker shares it, with a record of what its attempts to receive came to, and
/// of whether it has access to the receiver.
#[verifier::reject_recursive_types(J)]
pub struct Inbox<J> {
    receiver: Arc<Mutex<mpsc::Receiver<Message<J>>>>,
    log: Ghost<Seq<Event<J>>>,
    access: Ghost<bool>,
}

impl<J> Source<J> {
    /// The shared receiver itself.
    pub closed spec fn receiver(&self) -> Arc<Mutex<mpsc::Receiver<Message<J>>>> {
        self.receiver
    }

    /// How many inboxes were opened.
    pub closed spec fn opened(&self) -> nat {
        self.opened@
    }

    /// Open an inbox for a worker.
    pub(crate) fn inbox(&mut self) -> (inbox: Inbox<J>)
        ensures
            final(self).receiver() == old(self).receiver(),
            final(self).opened() == old(self).opened() + 1,
            inbox.receiver() == old(self).receiver(),
            inbox.log() == Seq::<Event<J>>::empty(),
            !inbox.has_access(),
    {
        self.opened = Ghost(self.opened@ + 1);
        Inbox {
            receiver: self.receiver.clone(),
            log: Ghost(Seq::empty()),
            access: Ghost(false),
        }
    }
}

/// Open a channel that nothing was sent through yet and no inbox was opened to.
pub(crate) fn open<J>() -> (ends: (Outbox<J>, Source<J>))
    ensures
        joined(ends.0.sender(), ends.1.receiver()),
        enclosed(ends.1.receiver()),
        ends.0.log() == Seq::<Message<J>>::empty(),
        ends.1.opened() == 0,
{
    let (sender, half) = mpsc::channel();
    let mutex = enclose(half);
    (
        Outbox { sender, log: Ghost(Seq::empty()) },
        Source { receiver: Arc::new(mutex), opened: Ghost(0) },
    )
}

/// The guard is access to this receiver: a worker that had none locked the mutex and got it.
pub closed spec fn granted<'a, J: Job>(
    receiver: Arc<Mutex<mpsc::Receiver<Message<J>>>>,
    access: MutexGuard<'a, mpsc::Receiver<Message<J>>>,
) -> bool {
    exists|inbox: Inbox<J>| #[trigger]
        call_ensures(Inbox::<J>::lock, (&inbox, &receiver), access)
}

impl<J> Inbox<J> {
    /// The shared receiver itself.
    pub closed spec fn receiver(&self) -> Arc<Mutex<mpsc::Receiver<Message<J>>>> {
        self.receiver
    }

    /// What every attempt to receive came to, oldest first.
    pub closed spec fn log(&self) -> Seq<Event<J>> {
        self.log@
    }

    /// Whether the worker has access to the receiver, so that no other worker has.
    pub closed spec fn has_access(&self) -> bool {
        self.access@
    }

    /// Another handle on the shared receiver, to wait for access to it.
    pub(crate) fn share(&self) -> (receiver: Arc<Mutex<mpsc::Receiver<Message<J>>>>)
        ensures
            receiver == self.receiver(),
    {
        self.receiver.clone()
    }
}

impl<J> Attempts for Inbox<J> {
    /// Whoever has access to the receiver is the only one that may receive.
    open spec fn moment(&self) -> Moment {
        Moment { attempts: self.log().len(), exclusive: self.has_access() }
    }
}

impl<J: Job> Inbox<J> {
    /// `std::sync::Mutex::lock` waits for access to the receiver, for a worker that has none yet.
    /// It fails only where a thread panicked while it had access. No thread does: the mutex was
    /// made here and nothing else locks it, and all that a worker may do between `enter` and
    /// `leave` is to receive. It may neither perform a job nor ask for a rest.
    #[verifier::external_body]
    fn lock<'a>(&self, receiver: &'a Arc<Mutex<mpsc::Receiver<Message<J>>>>) -> (access: MutexGuard<
        'a,
        mpsc::Receiver<Message<J>>,
    >)
        requires
            enclosed(*receiver),
            *receiver == self.receiver(),
            !self.has_access(),
    {
        receiver.lock().unwrap()
    }

    /// Wait for access to the receiver.
    pub(crate) fn enter<'a>(
        &mut self,
        receiver: &'a Arc<Mutex<mpsc::Receiver<Message<J>>>>,
    ) -> (access: MutexGuard<'a, mpsc::Receiver<Message<J>>>)
        requires
            enclosed(*receiver),
            *receiver == old(self).receiver(),
            !old(self).has_access(),
        ensures
            granted(*receiver, access),
            final(self).receiver() == old(self).receiver(),
            final(self).log() == old(self).log(),
            final(self).has_access(),
    {
        let access = self.lock(receiver);
        self.access = Ghost(true);
        access
    }

    /// `std::sync::mpsc::Receiver::recv` waits for the oldest message that was not received
    /// yet. There is none once the channel is empty and every sender is gone. The attempt is
    /// recorded, as `Closed` where there is none, and the access stays. Which message is the
    /// oldest depends on the other threads: the contract does not say. A message comes out as it
    /// was sent, and `Outbox::send` admits no job that is not ready.
    #[verifier::external_body]
    pub(crate) fn recv(&mut self, access: &MutexGuard<mpsc::Receiver<Message<J>>>) -> (message:
        Option<Message<J>>)
        requires
            granted(old(self).receiver(), *access),
        ensures
            final(self).receiver() == old(self).receiver(),
            final(self).log() == old(self).log().push(
                match message {
                    Some(message) => Event::Taken(message),
                    None => Event::Closed,
                },
            ),
            final(self).has_access() == old(self).has_access(),
            message matches Some(message) ==> message.ready(),
    {
        access.recv().ok()
    }

    /// Give up access to the receiver, which ends as the guard goes out of scope.
    pub(crate) fn leave(&mut self, access: MutexGuard<mpsc::Receiver<Message<J>>>)
        requires
            granted(old(self).receiver(), access),
        ensures
            final(self).receiver() == old(self).receiver(),
            final(self).log() == old(self).log(),
            !final(self).has_access(),
    {
        self.access = Ghost(false);
    }
}

/// While a worker has access to the receiver, no other worker may acquire messages, and its
/// record of attempts tells how many it made.
pub proof fn law_access_is_exclusive<J>(inbox: &Inbox<J>)
    ensures
        inbox.moment().exclusive <==> inbox.has_access(),
        inbox.moment().attempts == inbox.log().len(),
{
}

/// An inbox is opened to the receiver of its source, with no attempt made and no access.
proof fn law_inbox_shares_the_receiver<J>(source: &mut Source<J>, inbox: Inbox<J>)
    requires
        call_ensures(Source::<J>::inbox, (source,), inbox),
    ensures
        inbox.receiver == old(source).receiver,
        final(source).receiver == old(source).receiver,
        final(source).opened@ == old(source).opened@ + 1,
        inbox.log@.len() == 0,
        !inbox.access@,
{
}

/// A worker has access from when it enters to when it leaves, and leaving takes the guard.
proof fn law_access_lasts_until_given_up<'a, J: Job>(
    inbox: &mut Inbox<J>,
    receiver: &'a Arc<Mutex<mpsc::Receiver<Message<J>>>>,
    access: MutexGuard<'a, mpsc::Receiver<Message<J>>>,
)
    ensures
        call_ensures(Inbox::<J>::enter, (inbox, receiver), access) ==> final(inbox).access@
            && final(inbox).log@ == old(inbox).log@ && final(inbox).receiver == old(inbox).receiver,
        call_ensures(Inbox::<J>::leave, (inbox, access), ()) ==> !final(inbox).access@
            && final(inbox).log@ == old(inbox).log@ && final(inbox).receiver == old(inbox).receiver,
{
}

/// Ends that are joined come from one call of `mpsc::channel`, whose receiver went into the
/// mutex.
proof fn law_joined_ends_are_one_channel<J>(
    sender: mpsc::Sender<Message<J>>,
    receiver: Arc<Mutex<mpsc::Receiver<Message<J>>>>,
)
    requires
        joined(sender, receiver),
    ensures
        exists|half: mpsc::Receiver<Message<J>>| #[trigger]
            call_ensures(mpsc::channel::<Message<J>>, (), (sender, half)) && call_ensures(
                enclose::<mpsc::Receiver<Message<J>>>,
                (half,),
                *receiver,
            ),
{
}

} // verus!
