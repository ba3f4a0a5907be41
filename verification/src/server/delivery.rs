//! What goes out to a client, and who comes in.

use super::door::{Admission, DoorView};
use super::replies::{after_result, after_results, ReplyBudget};
use crate::protocol::message::{
    decode, decode_encode, MessageType, MessageView, ProtocolError,
};
use crate::protocol::promises::frames_lay_out_their_message;
use crate::router::{MailboxView, SendOutcome};
use vstd::prelude::*;

verus! {

/// What goes out for an answer is the frame of that answer: its type, its number, its channel and
/// its whole payload, byte for byte. It goes to the queue of the mailbox, once. An answer that is
/// not offered leaves the mailbox as it is.
pub proof fn answers_go_out_as_they_are(
    mailbox: MailboxView,
    reply: MessageView,
    outcome: SendOutcome,
)
    requires
        reply.channel.len() == 32,
    ensures
        after_result(mailbox, reply, None) == mailbox,
        ({
            let after = after_result(mailbox, reply, Some(outcome));
            let n = mailbox.offers.len() as int;
            let f = after.offers[n].frame;
            &&& after.queue == mailbox.queue
            &&& after.offers.len() == n + 1
            &&& forall|i: int| 0 <= i < n ==> #[trigger] after.offers[i] == mailbox.offers[i]
            &&& after.offers[n].queue == mailbox.queue
            &&& after.offers[n].outcome == outcome
            &&& f.len() == 37 + reply.payload.len()
            &&& f[0] == match reply.msg_type {
                MessageType::Publish => 0x01u8,
                MessageType::Subscribe => 0x02u8,
                MessageType::Unsubscribe => 0x03u8,
                MessageType::Retrieve => 0x04u8,
                MessageType::UploadBundle => 0x05u8,
                MessageType::FetchBundle => 0x06u8,
                MessageType::Ack => 0x10u8,
                MessageType::Nack => 0x11u8,
                MessageType::Data => 0x20u8,
                MessageType::BundleData => 0x21u8,
            }
            &&& f[1] * 0x100_0000 + f[2] * 0x1_0000 + f[3] * 0x100 + f[4] == reply.id
            &&& forall|i: int| 0 <= i < 32 ==> #[trigger] reply.channel[i] == f[5 + i]
            &&& forall|i: int|
                0 <= i < reply.payload.len() ==> #[trigger] reply.payload[i] == f[37 + i]
            &&& decode(f) == Ok::<MessageView, ProtocolError>(reply)
        }),
{
    frames_lay_out_their_message(reply);
    decode_encode(reply);
}

/// The places of the answers that were offered.
pub open spec fn offered(results: Seq<Option<SendOutcome>>) -> Seq<int>
    decreases results.len(),
{
    if results.len() == 0 {
        Seq::empty()
    } else if results.last() is Some {
        offered(results.drop_last()).push(results.len() - 1)
    } else {
        offered(results.drop_last())
    }
}

/// Of a list of answers just those go out that were offered, in their order and each once: what
/// went out before stays, and behind it stand frames that hold these very answers.
pub proof fn answers_go_out_in_order(
    mailbox: MailboxView,
    replies: Seq<MessageView>,
    results: Seq<Option<SendOutcome>>,
)
    requires
        results.len() == replies.len(),
        forall|i: int| 0 <= i < replies.len() ==> (#[trigger] replies[i]).channel.len() == 32,
    ensures
        ({
            let after = after_results(mailbox, replies, results);
            let n = mailbox.offers.len() as int;
            let at = offered(results);
            &&& after.queue == mailbox.queue
            &&& after.offers.len() == n + at.len()
            &&& forall|i: int| 0 <= i < n ==> #[trigger] after.offers[i] == mailbox.offers[i]
            &&& forall|i: int, j: int|
                0 <= i < j < at.len() ==> #[trigger] at[i] < #[trigger] at[j]
            &&& forall|i: int|
                0 <= i < at.len() ==> {
                    let offer = after.offers[n + i];
                    &&& 0 <= #[trigger] at[i] < replies.len()
                    &&& results[at[i]] == Some(offer.outcome)
                    &&& offer.queue == mailbox.queue
                    &&& decode(offer.frame) == Ok::<MessageView, ProtocolError>(replies[at[i]])
                    &&& offer.frame.len() == 37 + replies[at[i]].payload.len()
                }
            &&& forall|j: int|
                0 <= j < results.len() && results[j] is Some ==> #[trigger] at.contains(j)
        }),
    decreases replies.len(),
{
    if replies.len() > 0 {
        let rest = replies.drop_last();
        let earlier = results.drop_last();
        answers_go_out_in_order(mailbox, rest, earlier);
        let n = mailbox.offers.len() as int;
        let before = after_results(mailbox, rest, earlier);
        let after = after_results(mailbox, replies, results);
        let (was, at) = (offered(earlier), offered(results));
        assert(replies[replies.len() - 1].channel.len() == 32);
        if results.last() is Some {
            answers_go_out_as_they_are(before, replies.last(), results.last()->0);
            assert(at[at.len() - 1] == results.len() - 1);
        }
        assert forall|i: int| 0 <= i < at.len() implies {
            let offer = after.offers[n + i];
            &&& 0 <= #[trigger] at[i] < replies.len()
            &&& results[at[i]] == Some(offer.outcome)
            &&& offer.queue == mailbox.queue
            &&& decode(offer.frame) == Ok::<MessageView, ProtocolError>(replies[at[i]])
            &&& offer.frame.len() == 37 + replies[at[i]].payload.len()
        } by {
            if i < was.len() {
                assert(at[i] == was[i]);
                assert(after.offers[n + i] == before.offers[n + i]);
                assert(earlier[was[i]] == results[was[i]]);
                assert(rest[was[i]] == replies[was[i]]);
            }
        }
        assert forall|i: int, j: int| 0 <= i < j < at.len() implies #[trigger] at[i]
            < #[trigger] at[j] by {
            assert(at[i] == was[i]);
            if j < was.len() {
                assert(at[j] == was[j]);
            }
        }
        assert forall|j: int| 0 <= j < results.len() && results[j] is Some implies
            #[trigger] at.contains(j) by {
            if j < earlier.len() {
                assert(earlier[j] == results[j]);
                assert(was.contains(j));
                let i = choose|i: int| 0 <= i < was.len() && was[i] == j;
                assert(at[i] == j);
            } else {
                assert(at[at.len() - 1] == j);
            }
        }
        assert forall|i: int| 0 <= i < n implies #[trigger] after.offers[i]
            == mailbox.offers[i] by {
            assert(before.offers[i] == mailbox.offers[i]);
        }
    }
}

/// There is room for an answer exactly where its frame, together with what is on its way, goes into
/// the budget; sums are those of the machine. What is taken is added, what is through is taken off,
/// and the budget itself stays as it is.
pub proof fn room_is_counted_in_bytes(b: ReplyBudget, len: nat)
    requires
        len <= usize::MAX,
    ensures
        ({
            let sum = b.in_flight + len;
            let left = b.in_flight - len;
            &&& sum <= usize::MAX ==> (b.has_room(len) <==> sum <= b.max)
            &&& sum > usize::MAX ==> (b.has_room(len) <==> sum - usize::MAX - 1 <= b.max)
            &&& sum <= usize::MAX ==> b.with(len).in_flight == sum
            &&& sum > usize::MAX ==> b.with(len).in_flight == sum - usize::MAX - 1
            &&& left >= 0 ==> b.without(len).in_flight == left
            &&& left < 0 ==> b.without(len).in_flight == left + usize::MAX + 1
            &&& b.with(len).max == b.max
            &&& b.without(len).max == b.max
        }),
{
}

/// An answer is offered exactly where there is room for the 37 bytes and the payload of its frame.
pub proof fn answers_are_offered_where_there_is_room(
    b: ReplyBudget,
    reply: MessageView,
    result: Option<SendOutcome>,
)
    requires
        reply.channel.len() == 32,
        b.becomes(reply, result),
        b.in_flight + 37 + reply.payload.len() <= usize::MAX,
    ensures
        result is Some <==> b.in_flight + 37 + reply.payload.len() <= b.max,
{
    frames_lay_out_their_message(reply);
}

/// Whether an answer is offered is a matter of room alone.
pub proof fn room_decides(b: ReplyBudget, reply: MessageView, result: Option<SendOutcome>)
    requires
        reply.channel.len() == 32,
    ensures
        b.becomes(reply, result) <==> (result is Some <==> b.has_room(37 + reply.payload.len())),
{
    frames_lay_out_their_message(reply);
}

/// Only an answer that the queue took is on its way.
pub proof fn answers_on_their_way_are_counted(b: ReplyBudget, len: nat, outcome: SendOutcome)
    ensures
        b.after_reply(len, None) == b,
        outcome is Sent ==> b.after_reply(len, Some(outcome)) == b.with(len),
        !(outcome is Sent) ==> b.after_reply(len, Some(outcome)) == b,
{
}

/// Answers are counted one after the other, each with the 37 bytes and the payload of its frame.
pub proof fn answers_are_counted_one_by_one(
    b: ReplyBudget,
    replies: Seq<MessageView>,
    results: Seq<Option<SendOutcome>>,
    reply: MessageView,
    result: Option<SendOutcome>,
)
    requires
        reply.channel.len() == 32,
    ensures
        b.after_replies(Seq::empty(), Seq::empty()) == b,
        b.after_replies(replies.push(reply), results.push(result)) == b.after_replies(
            replies,
            results,
        ).after_reply(37 + reply.payload.len(), result),
{
    frames_lay_out_their_message(reply);
    assert(replies.push(reply).drop_last() =~= replies);
    assert(results.push(result).drop_last() =~= results);
}

/// A connection is taken on exactly where there is room for another at all and fewer than the limit
/// come from its address; otherwise the first of these that fails is the reason. One that is taken
/// on is counted, once, and nothing else changes.
pub proof fn arrivals_are_counted(d: DoorView, permit: bool, peer: Seq<u8>, other: Seq<u8>)
    ensures
        ({
            let after = d.after_arrival(permit, peer);
            let count = if d.counts.contains_key(peer) {
                d.counts[peer] as int
            } else {
                0
            };
            &&& !permit <==> d.admission(permit, peer) == Admission::ConnectionLimit
            &&& permit && count >= d.max_per_ip <==> d.admission(permit, peer)
                == Admission::PeerLimit
            &&& permit && count < d.max_per_ip <==> d.admission(permit, peer) == Admission::Admitted
            &&& after.max_per_ip == d.max_per_ip
            &&& d.count(peer) == count
            &&& !permit ==> after == d
            &&& permit && count >= d.max_per_ip ==> after.counts[peer] == count
            &&& permit && count < d.max_per_ip ==> after.counts[peer] == count + 1
            &&& permit ==> after.counts.contains_key(peer)
            &&& other != peer ==> after.counts.contains_key(other) == d.counts.contains_key(other)
                && after.counts[other] == d.counts[other]
        }),
{
}

/// A connection that goes is taken off the count of its address, once, and nothing else changes. An
/// address that nobody came from has no count.
pub proof fn departures_are_counted(d: DoorView, peer: Seq<u8>, other: Seq<u8>)
    ensures
        ({
            let after = d.after_departure(peer);
            &&& after.max_per_ip == d.max_per_ip
            &&& !d.counts.contains_key(peer) ==> after == d
            &&& d.counts.contains_key(peer) ==> after.counts.contains_key(peer)
            &&& d.counts.contains_key(peer) && d.counts[peer] > 0 ==> after.counts[peer]
                == d.counts[peer] - 1
            &&& d.counts.contains_key(peer) && d.counts[peer] == 0 ==> after.counts[peer]
                == usize::MAX
            &&& other != peer ==> after.counts.contains_key(other) == d.counts.contains_key(other)
                && after.counts[other] == d.counts[other]
        }),
{
}

} // verus!
