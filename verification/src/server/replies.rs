//! Answers on their way out, and the memory that they may take.

use crate::protocol::message::{encode, Message, MessageView};
use crate::router::{Mailbox, MailboxView, SendOutcome};
use crate::server::connection::messages;
use std::sync::Arc;
use vstd::prelude::*;

verus! {

/// The bytes of answers that a connection has on their way, and how many it may have.
pub struct ReplyBudget {
    pub in_flight: usize,
    pub max: usize,
}

/// The sum of two counts of bytes, which begins anew at the end of the machine's numbers.
pub open spec fn wrapped_sum(a: usize, b: nat) -> usize {
    if a + b <= usize::MAX {
        (a + b) as usize
    } else {
        (a + b - usize::MAX - 1) as usize
    }
}

/// The difference of two counts of bytes, which goes on at the end of the machine's numbers.
pub open spec fn wrapped_difference(a: usize, b: nat) -> usize {
    if b <= a {
        (a - b) as usize
    } else {
        (a - b + usize::MAX + 1) as usize
    }
}

/// The mailbox after an answer that was offered to its queue, once, or was not.
pub open spec fn after_result(
    mailbox: MailboxView,
    reply: MessageView,
    result: Option<SendOutcome>,
) -> MailboxView {
    match result {
        Some(outcome) => mailbox.after_offer(encode(reply), outcome),
        None => mailbox,
    }
}

/// The mailbox after answers.
pub open spec fn after_results(
    mailbox: MailboxView,
    replies: Seq<MessageView>,
    results: Seq<Option<SendOutcome>>,
) -> MailboxView
    decreases replies.len(),
{
    if replies.len() == 0 {
        mailbox
    } else {
        after_result(
            after_results(mailbox, replies.drop_last(), results.drop_last()),
            replies.last(),
            results.last(),
        )
    }
}

impl ReplyBudget {
    /// Whether there is room for `len` more bytes.
    pub open spec fn has_room(self, len: nat) -> bool {
        wrapped_sum(self.in_flight, len) <= self.max
    }

    /// The budget with `len` more bytes on their way.
    pub open spec fn with(self, len: nat) -> ReplyBudget {
        ReplyBudget { in_flight: wrapped_sum(self.in_flight, len), max: self.max }
    }

    /// The budget when `len` bytes are through.
    pub open spec fn without(self, len: nat) -> ReplyBudget {
        ReplyBudget { in_flight: wrapped_difference(self.in_flight, len), max: self.max }
    }

    /// The budget after an answer that was not offered to the queue, or met an outcome there: only
    /// one that the queue took is on its way.
    pub open spec fn after_reply(self, len: nat, result: Option<SendOutcome>) -> ReplyBudget {
        if result == Some(SendOutcome::Sent) {
            self.with(len)
        } else {
            self
        }
    }

    /// The budget after answers.
    pub open spec fn after_replies(
        self,
        replies: Seq<MessageView>,
        results: Seq<Option<SendOutcome>>,
    ) -> ReplyBudget
        decreases replies.len(),
    {
        if replies.len() == 0 {
            self
        } else {
            self.after_replies(replies.drop_last(), results.drop_last()).after_reply(
                encode(replies.last()).len(),
                results.last(),
            )
        }
    }

    /// Whether `result` can be what becomes of an answer: it is offered to the queue exactly where
    /// there is room for it.
    pub open spec fn becomes(self, reply: MessageView, result: Option<SendOutcome>) -> bool {
        result is Some <==> self.has_room(encode(reply).len())
    }

    /// A budget of `max` bytes, with nothing on its way.
    pub fn new(max: usize) -> (budget: Self)
        ensures
            budget == (ReplyBudget { in_flight: 0, max }),
    {
        ReplyBudget { in_flight: 0, max }
    }

    /// Takes room for `len` bytes, if there is any.
    pub fn reserve(&mut self, len: usize) -> (taken: bool)
        ensures
            taken == old(self).has_room(len as nat),
            *final(self) == if taken {
                old(self).with(len as nat)
            } else {
                *old(self)
            },
    {
        let sum: usize = self.in_flight.wrapping_add(len);
        if sum > self.max {
            return false;
        }
        self.in_flight = sum;
        true
    }

    /// Gives the room of `len` bytes back.
    pub fn release(&mut self, len: usize)
        ensures
            *final(self) == old(self).without(len as nat),
    {
        self.in_flight = self.in_flight.wrapping_sub(len);
    }

    /// Offers an answer to the queue of a connection, once. One that there is no room for is
    /// dropped.
    pub fn send_reply(&mut self, mailbox: &mut Mailbox, msg: &Message) -> (result: Option<
        SendOutcome,
    >)
        requires
            old(mailbox).wf(),
        ensures
            final(mailbox).wf(),
            old(self).becomes(msg@, result),
            final(mailbox)@ == after_result(old(mailbox)@, msg@, result),
            *final(self) == old(self).after_reply(encode(msg@).len(), result),
    {
        let frame = Arc::new(msg.serialize());
        let len: usize = frame.len();
        if !self.reserve(len) {
            return None;
        }
        let outcome = mailbox.offer(&frame);
        if outcome != SendOutcome::Sent {
            self.release(len);
            proof {
                reserving_is_undone(*old(self), len as nat);
            }
        }
        Some(outcome)
    }

    /// Offers answers to the queue of a connection, one after the other.
    pub fn send_replies(&mut self, mailbox: &mut Mailbox, replies: &Vec<Message>) -> (results: Vec<
        Option<SendOutcome>,
    >)
        requires
            old(mailbox).wf(),
        ensures
            final(mailbox).wf(),
            results@.len() == replies@.len(),
            forall|i: int|
                0 <= i < replies@.len() ==> old(self).after_replies(
                    messages(replies@).take(i),
                    results@.take(i),
                ).becomes(messages(replies@)[i], #[trigger] results@[i]),
            final(mailbox)@ == after_results(old(mailbox)@, messages(replies@), results@),
            *final(self) == old(self).after_replies(messages(replies@), results@),
    {
        let ghost all = messages(replies@);
        let mut results: Vec<Option<SendOutcome>> = Vec::new();
        for i in 0..replies.len()
            invariant
                mailbox.wf(),
                all == messages(replies@),
                results@.len() == i,
                *self == old(self).after_replies(all.take(i as int), results@),
                mailbox@ == after_results(old(mailbox)@, all.take(i as int), results@),
                forall|j: int|
                    0 <= j < i ==> old(self).after_replies(all.take(j), results@.take(j)).becomes(
                        all[j],
                        #[trigger] results@[j],
                    ),
        {
            let ghost before = results@;
            let result = self.send_reply(mailbox, &replies[i]);
            results.push(result);
            proof {
                assert(all.take(i + 1).drop_last() =~= all.take(i as int));
                assert(results@.drop_last() =~= before);
                assert(all.take(i + 1).last() == all[i as int]);
                assert forall|j: int| 0 <= j <= i implies old(self).after_replies(
                    all.take(j),
                    results@.take(j),
                ).becomes(all[j], #[trigger] results@[j]) by {
                    assert(results@.take(j) =~= before.take(j));
                    if j == i {
                        assert(before.take(j) =~= before);
                    }
                }
            }
        }
        assert(all.take(all.len() as int) =~= all);
        results
    }
}

/// Room that is taken and given back is as it was before.
pub proof fn reserving_is_undone(budget: ReplyBudget, len: nat)
    requires
        len <= usize::MAX,
    ensures
        budget.with(len).without(len) == budget,
{
}

/// What is on its way stays within the budget, as long as no more bytes are given back than are
/// on their way.
pub proof fn budgets_hold(budget: ReplyBudget, len: nat, through: nat)
    requires
        budget.in_flight <= budget.max,
        len <= usize::MAX,
        through <= budget.in_flight,
    ensures
        budget.has_room(len) ==> budget.with(len).in_flight <= budget.max,
        budget.without(through).in_flight == budget.in_flight - through,
        budget.without(through).in_flight <= budget.max,
        budget.in_flight + len <= usize::MAX ==> (budget.has_room(len) <==> budget.in_flight + len
            <= budget.max),
{
}

} // verus!
