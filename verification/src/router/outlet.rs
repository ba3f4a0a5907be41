//! Offering frames to the queues of connections, on the record.
//!
//! A queue is reached through an outlet, and only with the outbox that the outlet was made for. The
//! outbox keeps a record of all that is offered with it. The record is for contracts alone and
//! takes no memory.

use std::sync::Arc;
use tokio::sync::mpsc;
use vstd::prelude::*;

verus! {

/// An encoded message on its way out.
pub type OutboundFrame = Arc<Vec<u8>>;

/// The queue of frames on their way to a connection.
pub type OutboundSender = mpsc::Sender<OutboundFrame>;

/// The sending half of a bounded queue.
#[verifier::external_type_specification]
#[verifier::external_body]
#[verifier::reject_recursive_types(T)]
pub struct ExSender<T>(mpsc::Sender<T>);

/// What became of a frame that was offered to a queue.
#[derive(Debug, Clone, Copy, PartialEq, Eq, Structural)]
pub enum SendOutcome {
    /// The queue took it.
    Sent,
    /// The queue has no room.
    Full,
    /// Nobody reads the queue any more.
    Closed,
}

/// A frame that was offered to a queue, and what became of it.
#[verifier::ext_equal]
pub struct Offer {
    pub queue: OutboundSender,
    pub frame: Seq<u8>,
    pub outcome: SendOutcome,
}

/// What frames are offered with.
pub struct Outbox {
    home: Ghost<int>,
    record: Ghost<Seq<Offer>>,
}

/// The way to a queue. It belongs to one outbox.
pub struct Outlet {
    queue: OutboundSender,
    home: Ghost<int>,
}

impl Outbox {
    /// What the outlets of this outbox have in common.
    pub closed spec fn home(&self) -> int {
        self.home@
    }

    /// All that has been offered with this outbox, in its order.
    pub closed spec fn offers(&self) -> Seq<Offer> {
        self.record@
    }

    /// An outbox that nothing has been offered with.
    pub fn new() -> (outbox: Self)
        ensures
            outbox.offers() == Seq::<Offer>::empty(),
    {
        Outbox { home: Ghost(arbitrary()), record: Ghost(Seq::empty()) }
    }

    /// `mpsc::Sender::try_send`: offers a frame to a queue, once, and says what became of it. That
    /// depends on what the reader of the queue does. Nothing is said of what the queue holds.
    #[verifier::external_body]
    pub(crate) fn try_send(&mut self, outlet: &Outlet, frame: &OutboundFrame) -> (outcome:
        SendOutcome)
        requires
            outlet.home() == old(self).home(),
        ensures
            final(self).home() == old(self).home(),
            final(self).offers() == old(self).offers().push(
                (Offer { queue: outlet.queue(), frame: frame@, outcome }),
            ),
    {
        match outlet.queue.try_send(Arc::clone(frame)) {
            Ok(()) => SendOutcome::Sent,
            Err(mpsc::error::TrySendError::Full(_)) => SendOutcome::Full,
            Err(mpsc::error::TrySendError::Closed(_)) => SendOutcome::Closed,
        }
    }
}

impl Outlet {
    /// The queue that the outlet leads to.
    pub closed spec fn queue(&self) -> OutboundSender {
        self.queue
    }

    /// What the outlets of an outbox have in common.
    pub closed spec fn home(&self) -> int {
        self.home@
    }

    /// The way to a queue, for an outbox.
    pub fn new(queue: OutboundSender, outbox: &Outbox) -> (outlet: Self)
        ensures
            outlet.queue() == queue,
            outlet.home() == outbox.home(),
    {
        Outlet { queue, home: Ghost(outbox.home@) }
    }
}

/// A queue with an outbox of its own.
pub struct Mailbox {
    outbox: Outbox,
    outlet: Outlet,
}

/// A queue, and all that has been offered to it from one place.
#[verifier::ext_equal]
pub struct MailboxView {
    pub queue: OutboundSender,
    pub offers: Seq<Offer>,
}

impl View for Mailbox {
    type V = MailboxView;

    closed spec fn view(&self) -> MailboxView {
        MailboxView { queue: self.outlet.queue(), offers: self.outbox.offers() }
    }
}

impl MailboxView {
    /// The mailbox after a frame has been offered to its queue.
    pub open spec fn after_offer(self, frame: Seq<u8>, outcome: SendOutcome) -> MailboxView {
        MailboxView {
            offers: self.offers.push(Offer { queue: self.queue, frame, outcome }),
            ..self
        }
    }
}

impl Mailbox {
    /// The outlet belongs to the outbox.
    pub closed spec fn wf(&self) -> bool {
        self.outlet.home() == self.outbox.home()
    }

    /// A queue that nothing has been offered to from here.
    pub fn new(queue: OutboundSender) -> (mailbox: Self)
        ensures
            mailbox.wf(),
            mailbox@ == (MailboxView { queue, offers: Seq::empty() }),
    {
        let outbox = Outbox::new();
        let outlet = Outlet::new(queue, &outbox);
        Mailbox { outbox, outlet }
    }

    /// Offers a frame to the queue, once, and says what became of it.
    pub fn offer(&mut self, frame: &OutboundFrame) -> (outcome: SendOutcome)
        requires
            old(self).wf(),
        ensures
            final(self).wf(),
            final(self)@ == old(self)@.after_offer(frame@, outcome),
    {
        self.outbox.try_send(&self.outlet, frame)
    }
}

} // verus!
