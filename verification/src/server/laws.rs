//! What holds of the relay over all requests.

use super::model::{
    bundle_of, publish_refusal, refused, step, ttl_of, ConnectionCtx, Operation, ReadingsView,
    RelayView,
};
use super::reader::frame_step;
use crate::auth::model::proof_refusal;
use crate::clock::cutoff_of;
use crate::deaddrop::laws::{stored_is_retrieved, storing_keeps_limits};
use crate::prekey::laws::operations_keep_bundles_complete;
use crate::prekey::model::consumed;
use crate::protocol::message::{
    ack_of, decode_bounded, decode_encode, encode, MessageView, CHANNEL_SIZE,
};
use crate::ratelimit::bucket::BucketView;
use crate::router::laws::{
    lemma_counters_aside, sending_keeps_order, subscribing_keeps_order, subscribing_subscribes,
    unsubscribing_keeps_order, unsubscribing_unsubscribes,
};
use crate::router::model::{next_u32, offers_to};
use crate::router::Subscriber;
use vstd::prelude::*;

verus! {

/// Whatever is asked, and whatever the outside world says, the relay stays in order: every limit
/// holds and every count is right.
pub proof fn requests_keep_order(
    ctx: ConnectionCtx,
    key: Option<Seq<u8>>,
    relay: RelayView,
    op: Operation,
    msg: MessageView,
    r: ReadingsView,
)
    requires
        relay.wf(),
        op is Publish ==> r.outcomes.len() == relay.router.subscribers(msg.channel).len(),
    ensures
        step(ctx, key, relay, op, msg, r).relay.wf(),
{
    let after = step(ctx, key, relay, op, msg, r).relay;
    let inner = msg.payload.skip(64);
    match op {
        Operation::Publish => {
            if publish_refusal(key, relay, msg, r.proof_valid) is None {
                storing_keeps_limits(relay.store, msg.channel, inner, r.now);
                sending_keeps_order(relay.router, msg.channel, r.outcomes);
                lemma_counters_aside(
                    relay.router.after_sending(msg.channel, r.outcomes),
                    after.router,
                );
            }
        },
        Operation::Subscribe => {
            if relay.router.refusal(msg.channel, ctx.sub_id) is None {
                subscribing_keeps_order(
                    relay.router,
                    msg.channel,
                    Subscriber { id: ctx.sub_id, sender: ctx.outbound_tx, drop_count: 0 },
                );
            }
        },
        Operation::Unsubscribe => {
            unsubscribing_keeps_order(relay.router, msg.channel, ctx.sub_id);
        },
        Operation::Retrieve => {
            lemma_counters_aside(relay.router, after.router);
        },
        Operation::UploadBundle => {
            operations_keep_bundles_complete(relay.prekeys, msg.channel, inner, r.now, None);
        },
        Operation::FetchBundle => {
            operations_keep_bundles_complete(relay.prekeys, msg.channel, inner, r.now, None);
            lemma_counters_aside(relay.router, after.router);
        },
        _ => {},
    }
}

/// Who is not logged in gets nothing but the answer that they are not, and changes nothing.
pub proof fn no_login_no_service(
    ctx: ConnectionCtx,
    relay: RelayView,
    op: Operation,
    msg: MessageView,
    r: ReadingsView,
)
    requires
        !(op is Authenticate),
        !(op is Ignored),
    ensures
        step(ctx, None, relay, op, msg, r) == refused(
            None,
            relay,
            msg.id,
            "not authenticated"@,
        ),
{
}

/// Whether a message answers a request, rather than carries something.
pub open spec fn is_answer(msg: MessageView) -> bool {
    msg.msg_type is Ack || msg.msg_type is Nack
}

/// Every request is answered once, with its own number, behind all that it asked for; what is of
/// no use from a client is not answered.
pub proof fn every_request_is_answered_once(
    ctx: ConnectionCtx,
    key: Option<Seq<u8>>,
    relay: RelayView,
    op: Operation,
    msg: MessageView,
    r: ReadingsView,
)
    ensures
        ({
            let replies = step(ctx, key, relay, op, msg, r).replies;
            if op is Ignored {
                replies.len() == 0
            } else {
                &&& replies.len() > 0
                &&& is_answer(replies.last())
                &&& replies.last().id == msg.id
                &&& forall|i: int| 0 <= i < replies.len() - 1 ==> !is_answer(#[trigger] replies[i])
                &&& forall|i: int|
                    0 <= i < replies.len() - 1 ==> (#[trigger] replies[i]).channel == msg.channel
            }
        }),
{
}

/// A request that is answered in the negative changes nothing, and gets nothing else.
pub proof fn refused_requests_change_nothing(
    ctx: ConnectionCtx,
    key: Option<Seq<u8>>,
    relay: RelayView,
    op: Operation,
    msg: MessageView,
    r: ReadingsView,
)
    requires
        !(op is Ignored),
        step(ctx, key, relay, op, msg, r).replies.last().msg_type is Nack,
    ensures
        step(ctx, key, relay, op, msg, r).key == key,
        step(ctx, key, relay, op, msg, r).relay == relay,
        step(ctx, key, relay, op, msg, r).replies.len() == 1,
{
}

/// Only a login changes who is logged in.
pub proof fn only_logins_log_in(
    ctx: ConnectionCtx,
    key: Option<Seq<u8>>,
    relay: RelayView,
    op: Operation,
    msg: MessageView,
    r: ReadingsView,
)
    requires
        !(op is Authenticate),
    ensures
        step(ctx, key, relay, op, msg, r).key == key,
{
}

/// A request for one channel leaves all others as they are: their envelopes, their bundles and
/// their subscribers.
pub proof fn channels_are_separate(
    ctx: ConnectionCtx,
    key: Option<Seq<u8>>,
    relay: RelayView,
    op: Operation,
    msg: MessageView,
    r: ReadingsView,
    other: Seq<u8>,
)
    requires
        other != msg.channel,
    ensures
        ({
            let after = step(ctx, key, relay, op, msg, r).relay;
            &&& after.store.queue(other) == relay.store.queue(other)
            &&& after.prekeys.fetched(other) == relay.prekeys.fetched(other)
            &&& after.router.subscribers(other) == relay.router.subscribers(other)
        }),
{
}

/// An envelope that is taken comes back to whoever asks for its channel with a valid proof, as it
/// was given and as the last one, as long as it is no older than they ask for.
pub proof fn published_is_retrieved(
    sender: ConnectionCtx,
    sender_key: Option<Seq<u8>>,
    reader: ConnectionCtx,
    reader_key: Option<Seq<u8>>,
    relay: RelayView,
    sent: MessageView,
    asked: MessageView,
    r: ReadingsView,
    later: ReadingsView,
)
    requires
        relay.store.max_per_drop > 0,
        publish_refusal(sender_key, relay, sent, r.proof_valid) is None,
        proof_refusal(reader_key, asked.payload, later.proof_valid) is None,
        asked.channel == sent.channel,
        cutoff_of(later.now, ttl_of(asked.payload.skip(64))) matches Some(point) ==> point
            <= r.now,
    ensures
        ({
            let there = step(sender, sender_key, relay, Operation::Publish, sent, r);
            let back = step(reader, reader_key, there.relay, Operation::Retrieve, asked, later);
            let n = back.replies.len();
            &&& there.replies == seq![ack_of(sent.id)]
            &&& n >= 2
            &&& back.replies[n - 1] == ack_of(asked.id)
            &&& back.replies[n - 2].msg_type is Data
            &&& back.replies[n - 2].channel == sent.channel
            &&& back.replies[n - 2].payload == sent.payload.skip(64)
        }),
{
    let cutoff = cutoff_of(later.now, ttl_of(asked.payload.skip(64)));
    stored_is_retrieved(relay.store, sent.channel, sent.payload.skip(64), r.now, cutoff);
}

/// A bundle that is taken goes to whoever asks for it next, as it was given; who asks after them
/// gets it without the one-time key that went with the first.
pub proof fn uploaded_is_fetched(
    owner: ConnectionCtx,
    owner_key: Option<Seq<u8>>,
    reader: ConnectionCtx,
    reader_key: Option<Seq<u8>>,
    relay: RelayView,
    given: MessageView,
    asked: MessageView,
    r: ReadingsView,
)
    requires
        proof_refusal(owner_key, given.payload, r.proof_valid) is None,
        relay.prekeys.refusal(given.payload.skip(64)) is None,
        reader_key is Some,
        asked.channel == given.channel,
    ensures
        ({
            let bundle = given.payload.skip(64);
            let id = relay.router.next_msg_id;
            let there = step(owner, owner_key, relay, Operation::UploadBundle, given, r);
            let first = step(reader, reader_key, there.relay, Operation::FetchBundle, asked, r);
            let next = step(reader, reader_key, first.relay, Operation::FetchBundle, asked, r);
            &&& there.replies == seq![ack_of(given.id)]
            &&& first.replies == seq![bundle_of(id, asked.channel, bundle), ack_of(asked.id)]
            &&& next.replies == seq![
                bundle_of(next_u32(id), asked.channel, consumed(bundle)),
                ack_of(asked.id),
            ]
        }),
{
}

/// Who subscribes and is not refused listens to the channel, and who ends it does not.
pub proof fn subscribing_takes_effect(
    ctx: ConnectionCtx,
    key: Option<Seq<u8>>,
    relay: RelayView,
    msg: MessageView,
    r: ReadingsView,
)
    requires
        relay.wf(),
        key is Some,
    ensures
        ({
            let there = step(ctx, key, relay, Operation::Subscribe, msg, r);
            there.replies == seq![ack_of(msg.id)] ==> there.relay.router.subscribed(
                msg.channel,
                ctx.sub_id,
            )
        }),
        ({
            let gone = step(ctx, key, relay, Operation::Unsubscribe, msg, r);
            &&& gone.replies == seq![ack_of(msg.id)]
            &&& !gone.relay.router.subscribed(msg.channel, ctx.sub_id)
        }),
{
    let sub = Subscriber { id: ctx.sub_id, sender: ctx.outbound_tx, drop_count: 0 };
    subscribing_subscribes(relay.router, msg.channel, sub, sub, ctx.sub_id);
    unsubscribing_unsubscribes(relay.router, msg.channel, ctx.sub_id, ctx.sub_id);
    let there = step(ctx, key, relay, Operation::Subscribe, msg, r);
    if there.replies == seq![ack_of(msg.id)] {
        assert(there.replies[0].msg_type is Ack);
    }
}

/// What is no message, is too long or comes too fast changes nothing, and only what is too long or
/// comes too fast is answered.
pub proof fn frames_that_are_not_taken_change_nothing(
    ctx: ConnectionCtx,
    key: Option<Seq<u8>>,
    bucket: BucketView,
    relay: RelayView,
    frame: Seq<u8>,
    now: u64,
    r: ReadingsView,
)
    requires
        decode_bounded(frame, Some(ctx.max_payload_size)) matches Ok(msg) ==> !bucket.grants(
            now,
            msg.msg_type.cost(),
        ),
    ensures
        ({
            let after = frame_step(ctx, key, bucket, relay, frame, now, r);
            &&& after.key == key
            &&& after.relay == relay
            &&& after.replies.len() <= 1
            &&& forall|i: int|
                0 <= i < after.replies.len() ==> (#[trigger] after.replies[i]).msg_type is Nack
        }),
{
}

/// Reading envelopes takes none: who asks again gets the same, under new numbers.
pub proof fn retrieving_takes_nothing(
    ctx: ConnectionCtx,
    key: Option<Seq<u8>>,
    relay: RelayView,
    msg: MessageView,
    r: ReadingsView,
)
    ensures
        ({
            let once = step(ctx, key, relay, Operation::Retrieve, msg, r);
            let twice = step(ctx, key, once.relay, Operation::Retrieve, msg, r);
            &&& once.relay.store == relay.store
            &&& once.relay.prekeys == relay.prekeys
            &&& once.relay.router.channels == relay.router.channels
            &&& twice.replies.len() == once.replies.len()
            &&& forall|i: int|
                0 <= i < once.replies.len() ==> (#[trigger] twice.replies[i]).payload
                    == once.replies[i].payload
        }),
{
}

/// A request that fits and is paid for is handled as it was before it was put into a frame.
pub proof fn encoded_requests_are_handled(
    ctx: ConnectionCtx,
    key: Option<Seq<u8>>,
    bucket: BucketView,
    relay: RelayView,
    msg: MessageView,
    now: u64,
    r: ReadingsView,
)
    requires
        msg.channel.len() == CHANNEL_SIZE,
        msg.payload.len() <= ctx.max_payload_size,
        bucket.grants(now, msg.msg_type.cost()),
    ensures
        ({
            let after = frame_step(ctx, key, bucket, relay, encode(msg), now, r);
            let want = step(ctx, key, relay, Operation::of_type(msg.msg_type), msg, r);
            &&& after.key == want.key
            &&& after.relay == want.relay
            &&& after.replies == want.replies
            &&& after.bucket == bucket.after(now, msg.msg_type.cost())
        }),
{
    decode_encode(msg);
}

/// Nothing goes to subscribers but the envelopes that are taken, and each of those goes once to
/// each subscriber of its channel.
pub proof fn only_envelopes_are_offered(
    ctx: ConnectionCtx,
    key: Option<Seq<u8>>,
    relay: RelayView,
    op: Operation,
    msg: MessageView,
    r: ReadingsView,
)
    ensures
        step(ctx, key, relay, op, msg, r).relay.router.offers == if op is Publish
            && publish_refusal(key, relay, msg, r.proof_valid) is None {
            relay.router.offers + offers_to(
                relay.router.subscribers(msg.channel),
                relay.router.next_frame(msg.channel, msg.payload.skip(64)),
                r.outcomes,
            )
        } else {
            relay.router.offers
        },
{
}

} // verus!
