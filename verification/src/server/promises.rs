//! How each request is answered, and what becomes of the relay.

use super::connection::messages;
use super::model::{
    handled, handled_at, id_after, readings_of, step, ttl_of, with_record, Clocks, ConnectionCtx,
    Operation, ReadingsView, RelayView, Step,
};
use super::reader::{frame_handled_at, frame_step, FrameStep};
use crate::auth::model::{channel_message, login_message, login_time};
use crate::auth::promises::{
    channels_are_signed_in_full, logins_are_read_as_laid_out, logins_are_refused_for_cause,
};
use crate::auth::{signed, valid_key};
use crate::clock::cutoff_of;
use crate::deaddrop::model::EnvelopeView;
use crate::deaddrop::promises::{
    cutoffs_lie_back_in_seconds, picked, places, retrieving_leaves_nothing_out,
};
use crate::protocol::message::{
    decode, Message, MessageType, MessageView, ProtocolError,
};
use crate::protocol::promises::{bytes_are_big_endian, limits_refuse_long_payloads_only};
use crate::ratelimit::bucket::BucketView;
use crate::router::model::RouterView;
use crate::router::promises::publishing_offers_the_whole_payload;
use crate::router::{Offer, SendOutcome, Subscriber};
use vstd::prelude::*;
use vstd::utf8::encode_utf8;

verus! {

/// Whether a message grants the request with this number.
pub open spec fn says_yes(m: MessageView, id: u32) -> bool {
    &&& m.msg_type is Ack
    &&& m.id == id
    &&& m.channel == Seq::new(32, |i: int| 0u8)
    &&& m.payload == Seq::<u8>::empty()
}

/// Whether a message refuses the request with this number, for this reason.
pub open spec fn says_no(m: MessageView, id: u32, reason: Seq<char>) -> bool {
    &&& m.msg_type is Nack
    &&& m.id == id
    &&& m.channel == Seq::new(32, |i: int| 0u8)
    &&& m.payload == encode_utf8(reason)
}

/// Whether a request is refused, and changes nothing.
pub open spec fn turned_down(
    key: Option<Seq<u8>>,
    relay: RelayView,
    id: u32,
    reason: Seq<char>,
    after: Step,
) -> bool {
    &&& after.key == key
    &&& after.relay == relay
    &&& after.replies.len() == 1
    &&& says_no(after.replies[0], id, reason)
}

/// Messages are requests by their types, and answers of the relay are none.
pub proof fn types_ask_for_what_they_are_named_after(t: MessageType)
    ensures
        Operation::of_type(t) is Publish <==> t is Publish,
        Operation::of_type(t) is Subscribe <==> t is Subscribe,
        Operation::of_type(t) is Unsubscribe <==> t is Unsubscribe,
        Operation::of_type(t) is Retrieve <==> t is Retrieve,
        Operation::of_type(t) is UploadBundle <==> t is UploadBundle,
        Operation::of_type(t) is FetchBundle <==> t is FetchBundle,
        Operation::of_type(t) is Ignored <==> t is Ack || t is Nack || t is Data || t is BundleData,
{
}

/// What messages say is what each of them says.
pub proof fn lists_are_seen_message_by_message(list: Seq<Message>, i: int)
    requires
        0 <= i < list.len(),
    ensures
        messages(list).len() == list.len(),
        messages(list)[i].msg_type == list[i].msg_type,
        messages(list)[i].id == list[i].id,
        messages(list)[i].channel == list[i].channel@,
        messages(list)[i].payload == list[i].payload@,
{
}

/// The proof in a request is a signature by whoever is logged in: the first 64 bytes of the
/// payload, for the 17 bytes of its domain and the channel of the request.
pub proof fn proofs_are_for_the_channel(
    key: Seq<u8>,
    op: Operation,
    msg: MessageView,
    clocks: Clocks,
    outcomes: Seq<SendOutcome>,
    message: Seq<u8>,
    signature: Seq<u8>,
)
    requires
        msg.payload.len() >= 64,
        message.len() == 17 + msg.channel.len(),
        message.take(17) == seq![
            0x24u8, 0x68, 0x61, 0x74, 0x74, 0x65, 0x72, 0x24, 0x2d, 0x63, 0x68, 0x61, 0x6e, 0x2d,
            0x76, 0x31, 0x00,
        ],
        forall|i: int| 0 <= i < msg.channel.len() ==> #[trigger] msg.channel[i] == message[17 + i],
        signature.len() == 64,
        forall|i: int| 0 <= i < 64 ==> #[trigger] signature[i] == msg.payload[i],
    ensures
        readings_of(Some(key), op, msg, clocks, outcomes).proof_valid == signed(
            key,
            message,
            signature,
        ),
{
    let expected = channel_message(msg.channel);
    channels_are_signed_in_full(msg.channel);
    assert forall|i: int| 0 <= i < message.len() implies message[i] == expected[i] by {
        if i < 17 {
            assert(message.take(17)[i] == message[i]);
            assert(expected.take(17)[i] == expected[i]);
        } else {
            assert(msg.channel[i - 17] == message[17 + (i - 17)]);
        }
    }
    assert(message =~= expected);
    assert(signature =~= msg.payload.take(64));
}

/// The signature of a login is its last 64 bytes, by the key that its first 32 bytes are, for the
/// 17 bytes of its domain and the first 40 bytes of the login.
pub proof fn logins_are_for_their_key(
    someone: Option<Seq<u8>>,
    msg: MessageView,
    clocks: Clocks,
    outcomes: Seq<SendOutcome>,
    key: Seq<u8>,
    message: Seq<u8>,
    signature: Seq<u8>,
)
    requires
        msg.payload.len() >= 104,
        key.len() == 32,
        forall|i: int| 0 <= i < 32 ==> #[trigger] key[i] == msg.payload[i],
        message.len() == 57,
        message.take(17) == seq![
            0x24u8, 0x68, 0x61, 0x74, 0x74, 0x65, 0x72, 0x24, 0x2d, 0x61, 0x75, 0x74, 0x68, 0x2d,
            0x76, 0x31, 0x00,
        ],
        forall|i: int| 0 <= i < 40 ==> #[trigger] msg.payload[i] == message[17 + i],
        signature.len() == 64,
        forall|i: int| 0 <= i < 64 ==> #[trigger] signature[i] == msg.payload[40 + i],
    ensures
        ({
            let r = readings_of(someone, Operation::Authenticate, msg, clocks, outcomes);
            &&& r.now_ms == clocks.now_ms
            &&& r.key_valid == valid_key(key)
            &&& r.signature_valid == signed(key, message, signature)
        }),
{
    let p = msg.payload;
    let expected = login_message(p);
    logins_are_read_as_laid_out(p);
    assert forall|i: int| 0 <= i < message.len() implies message[i] == expected[i] by {
        if i < 17 {
            assert(message.take(17)[i] == message[i]);
            assert(expected.take(17)[i] == expected[i]);
        } else {
            assert(p[i - 17] == message[17 + (i - 17)]);
            assert(p[i - 17] == expected[17 + (i - 17)]);
        }
    }
    assert(message =~= expected);
    assert(key =~= crate::auth::model::login_key(p));
    assert(signature =~= crate::auth::model::login_signature(p));
}

/// Envelopes go by the clock of their store, and bundles by that of theirs.
pub proof fn requests_go_by_the_clock_of_their_store(
    key: Option<Seq<u8>>,
    msg: MessageView,
    clocks: Clocks,
    outcomes: Seq<SendOutcome>,
)
    ensures
        readings_of(key, Operation::Publish, msg, clocks, outcomes).now == clocks.store,
        readings_of(key, Operation::Retrieve, msg, clocks, outcomes).now == clocks.store,
        readings_of(key, Operation::UploadBundle, msg, clocks, outcomes).now == clocks.prekeys,
        readings_of(key, Operation::Publish, msg, clocks, outcomes).outcomes == outcomes,
{
}

/// A request is handled by readings that are its own, with an outcome for each subscriber that it
/// reaches.
pub proof fn requests_are_handled_by_their_readings(
    ctx: ConnectionCtx,
    key: Option<Seq<u8>>,
    relay: RelayView,
    op: Operation,
    msg: MessageView,
    clocks: Clocks,
    after: Step,
)
    requires
        handled_at(ctx, key, relay, op, msg, clocks, after),
    ensures
        handled(ctx, key, relay, op, msg, after),
        exists|outcomes: Seq<SendOutcome>|
            {
                let r = #[trigger] readings_of(key, op, msg, clocks, outcomes);
                let store = relay.store.refusal(msg.channel, (msg.payload.len() - 64) as nat);
                &&& after == step(ctx, key, relay, op, msg, r)
                &&& op is Publish && key is Some && msg.payload.len() >= 64 && r.proof_valid
                    && store is None ==> outcomes.len() == relay.router.subscribers(
                    msg.channel,
                ).len()
            },
{
}

/// A request that is handled is handled at the time that the clocks say, whatever that is.
pub proof fn requests_are_handled_at_some_time(
    ctx: ConnectionCtx,
    key: Option<Seq<u8>>,
    relay: RelayView,
    op: Operation,
    msg: MessageView,
    after: Step,
)
    ensures
        handled(ctx, key, relay, op, msg, after) <==> exists|clocks: Clocks| #[trigger]
            handled_at(ctx, key, relay, op, msg, clocks, after),
{
}

/// A login that is long enough, in time, by a key and signed with it is granted, and its key is
/// logged in. Any other is refused for the first of these that fails. The relay stays as it is.
pub proof fn logins_are_answered(
    ctx: ConnectionCtx,
    key: Option<Seq<u8>>,
    relay: RelayView,
    msg: MessageView,
    r: ReadingsView,
)
    ensures
        ({
            let after = step(ctx, key, relay, Operation::Authenticate, msg, r);
            let p = msg.payload;
            let off = r.now_ms - login_time(p);
            let in_time = -1000 * ctx.auth_timeout_secs <= off <= 1000 * ctx.auth_timeout_secs;
            &&& p.len() < 104 ==> turned_down(key, relay, msg.id, "auth payload too short"@, after)
            &&& p.len() >= 104 && !in_time ==> turned_down(
                key,
                relay,
                msg.id,
                "auth timestamp expired"@,
                after,
            )
            &&& p.len() >= 104 && in_time && !r.key_valid ==> turned_down(
                key,
                relay,
                msg.id,
                "invalid public key"@,
                after,
            )
            &&& p.len() >= 104 && in_time && r.key_valid && !r.signature_valid ==> turned_down(
                key,
                relay,
                msg.id,
                "auth signature invalid"@,
                after,
            )
            &&& p.len() >= 104 && in_time && r.key_valid && r.signature_valid ==> {
                &&& after.key == Some(p.take(32))
                &&& after.relay == relay
                &&& after.replies.len() == 1
                &&& says_yes(after.replies[0], msg.id)
            }
        }),
{
    logins_are_refused_for_cause(
        msg.payload,
        ctx.auth_timeout_secs,
        r.now_ms,
        r.key_valid,
        r.signature_valid,
    );
}

/// Requests for a channel are refused where nobody is logged in, where the proof is missing, and
/// where it is not valid, and change nothing then.
pub proof fn channels_ask_for_proof(
    ctx: ConnectionCtx,
    key: Option<Seq<u8>>,
    relay: RelayView,
    op: Operation,
    msg: MessageView,
    r: ReadingsView,
)
    requires
        op is Publish || op is Subscribe || op is Retrieve || op is UploadBundle,
    ensures
        ({
            let after = step(ctx, key, relay, op, msg, r);
            &&& key is None ==> turned_down(key, relay, msg.id, "not authenticated"@, after)
            &&& key is Some && msg.payload.len() < 64 ==> turned_down(
                key,
                relay,
                msg.id,
                "channel proof missing"@,
                after,
            )
            &&& key is Some && msg.payload.len() >= 64 && !r.proof_valid ==> turned_down(
                key,
                relay,
                msg.id,
                "channel proof invalid"@,
                after,
            )
        }),
{
}

/// An envelope with its proof is all that stands behind the proof. Where the store does not take
/// it, it is refused for the store's reason; otherwise it is stored, goes out to the subscribers,
/// and is granted. Bundles and who is logged in stay as they are.
pub proof fn envelopes_are_stored_and_go_out(
    ctx: ConnectionCtx,
    key: Option<Seq<u8>>,
    relay: RelayView,
    msg: MessageView,
    r: ReadingsView,
    data: Seq<u8>,
)
    requires
        key is Some,
        r.proof_valid,
        msg.payload.len() == 64 + data.len(),
        forall|i: int| 0 <= i < data.len() ==> #[trigger] data[i] == msg.payload[64 + i],
    ensures
        ({
            let after = step(ctx, key, relay, Operation::Publish, msg, r);
            match relay.store.refusal(msg.channel, data.len()) {
                Some(reason) => turned_down(key, relay, msg.id, reason, after),
                None => {
                    &&& after.key == key
                    &&& after.relay.store == relay.store.after_store(msg.channel, data, r.now)
                    &&& after.relay.router == relay.router.after_publish(
                        msg.channel,
                        data,
                        r.outcomes,
                    )
                    &&& after.relay.prekeys == relay.prekeys
                    &&& after.replies.len() == 1
                    &&& says_yes(after.replies[0], msg.id)
                },
            }
        }),
{
    assert(data =~= msg.payload.skip(64));
}

/// What each subscriber is offered of an envelope that is granted: a frame of 37 bytes and all that
/// stands in the envelope behind its proof, byte for byte.
pub proof fn envelopes_go_out_whole(
    ctx: ConnectionCtx,
    key: Option<Seq<u8>>,
    relay: RelayView,
    msg: MessageView,
    clocks: Clocks,
    after: Step,
    k: int,
)
    requires
        handled_at(ctx, key, relay, Operation::Publish, msg, clocks, after),
        msg.channel.len() == 32,
        after.replies[0].msg_type is Ack,
        0 <= k < relay.router.subscribers(msg.channel).len(),
    ensures
        ({
            let n = relay.router.offers.len();
            let offer = after.relay.router.offers[n + k];
            let f = offer.frame;
            &&& after.relay.router.offers.len() == n + relay.router.subscribers(msg.channel).len()
            &&& offer.queue == relay.router.subscribers(msg.channel)[k].sender
            &&& f.len() == 37 + (msg.payload.len() - 64)
            &&& f[0] == 0x20
            &&& f[1] * 0x100_0000 + f[2] * 0x1_0000 + f[3] * 0x100 + f[4]
                == relay.router.next_msg_id
            &&& forall|i: int| 0 <= i < 32 ==> #[trigger] msg.channel[i] == f[5 + i]
            &&& forall|i: int|
                64 <= i < msg.payload.len() ==> #[trigger] msg.payload[i] == f[i - 27]
            &&& decode(f) == Ok::<MessageView, ProtocolError>(
                (MessageView {
                    msg_type: MessageType::Data,
                    id: relay.router.next_msg_id,
                    channel: msg.channel,
                    payload: msg.payload.skip(64),
                }),
            )
        }),
{
    let outcomes = choose|outcomes: Seq<SendOutcome>|
        {
            let r = #[trigger] readings_of(key, Operation::Publish, msg, clocks, outcomes);
            &&& super::model::answers_all(key, relay, Operation::Publish, msg, r)
            &&& after == step(ctx, key, relay, Operation::Publish, msg, r)
        };
    let r = readings_of(key, Operation::Publish, msg, clocks, outcomes);
    channels_ask_for_proof(ctx, key, relay, Operation::Publish, msg, r);
    let data = msg.payload.skip(64);
    envelopes_are_stored_and_go_out(ctx, key, relay, msg, r, data);
    publishing_offers_the_whole_payload(relay.router, msg.channel, data, outcomes, k);
    let f = after.relay.router.offers[relay.router.offers.len() + k].frame;
    assert forall|i: int| 64 <= i < msg.payload.len() implies #[trigger] msg.payload[i]
        == f[i - 27] by {
        assert(data[i - 64] == f[37 + (i - 64)]);
    }
}

/// A subscription with its proof is refused for the router's reason, or puts the connection and its
/// queue, with no frame lost, on the list of the channel. Nothing else changes.
pub proof fn subscriptions_are_answered(
    ctx: ConnectionCtx,
    key: Option<Seq<u8>>,
    relay: RelayView,
    msg: MessageView,
    r: ReadingsView,
)
    requires
        key is Some,
        msg.payload.len() >= 64,
        r.proof_valid,
    ensures
        ({
            let after = step(ctx, key, relay, Operation::Subscribe, msg, r);
            match relay.router.refusal(msg.channel, ctx.sub_id) {
                Some(reason) => turned_down(key, relay, msg.id, reason, after),
                None => {
                    &&& after.key == key
                    &&& after.relay.router == relay.router.after_subscribe(
                        msg.channel,
                        (Subscriber { id: ctx.sub_id, sender: ctx.outbound_tx, drop_count: 0 }),
                    )
                    &&& after.relay.store == relay.store
                    &&& after.relay.prekeys == relay.prekeys
                    &&& after.replies.len() == 1
                    &&& says_yes(after.replies[0], msg.id)
                },
            }
        }),
{
}

/// Whoever is logged in can leave a channel: the connection goes off its list. Nothing else
/// changes.
pub proof fn departures_are_answered(
    ctx: ConnectionCtx,
    key: Option<Seq<u8>>,
    relay: RelayView,
    msg: MessageView,
    r: ReadingsView,
)
    ensures
        ({
            let after = step(ctx, key, relay, Operation::Unsubscribe, msg, r);
            &&& key is None ==> turned_down(key, relay, msg.id, "not authenticated"@, after)
            &&& key is Some ==> {
                &&& after.key == key
                &&& after.relay.router == relay.router.after_unsubscribe(msg.channel, ctx.sub_id)
                &&& after.relay.store == relay.store
                &&& after.relay.prekeys == relay.prekeys
                &&& after.replies.len() == 1
                &&& says_yes(after.replies[0], msg.id)
            }
        }),
{
}

/// A request for envelopes reaches back as many seconds as the four bytes behind its proof say,
/// with the most significant first; a day where they are missing or zero.
pub proof fn requests_reach_back_by_four_bytes(p: Seq<u8>)
    ensures
        p.len() < 4 ==> ttl_of(p) == 86_400,
        p.len() >= 4 ==> {
            let secs = p[0] * 0x100_0000 + p[1] * 0x1_0000 + p[2] * 0x100 + p[3];
            ttl_of(p) == if secs == 0 {
                86_400
            } else {
                secs
            }
        },
{
    if p.len() >= 4 {
        let s = p.subrange(0, 4);
        assert(s[0] == p[0] && s[1] == p[1] && s[2] == p[2] && s[3] == p[3]);
        bytes_are_big_endian(p.subrange(0, 2), s, Seq::new(8, |i: int| 0u8));
    }
}

/// Message numbers are counted in 32 bits.
pub proof fn numbers_are_counted_on(id: u32, n: nat)
    ensures
        id_after(id, n) == (id + n) % 0x1_0000_0000,
{
}

/// A request for envelopes with its proof is answered with all envelopes of the channel that were
/// stored at the cutoff or later, or all without a cutoff: one data message for each, in their
/// order, whole, with numbers that follow one another, and the grant behind them. The store stays
/// as it is, and of the router only the numbers that were used change.
pub proof fn all_envelopes_are_handed_out(
    ctx: ConnectionCtx,
    key: Option<Seq<u8>>,
    relay: RelayView,
    msg: MessageView,
    r: ReadingsView,
    cutoff: Option<u64>,
)
    requires
        key is Some,
        msg.payload.len() >= 64,
        r.proof_valid,
        ({
            let p = msg.payload;
            let said = p[64] * 0x100_0000 + p[65] * 0x1_0000 + p[66] * 0x100 + p[67];
            let secs = if p.len() < 68 || said == 0 {
                86_400
            } else {
                said
            };
            match cutoff {
                Some(point) => point + 1_000_000_000 * secs == r.now,
                None => 1_000_000_000 * secs > r.now,
            }
        }),
    ensures
        ({
            let after = step(ctx, key, relay, Operation::Retrieve, msg, r);
            let queue = if relay.store.drops.contains_key(msg.channel) {
                relay.store.drops[msg.channel]
            } else {
                Seq::<EnvelopeView>::empty()
            };
            let at = places(queue, cutoff);
            let n = at.len() as int;
            &&& after.replies.len() == n + 1
            &&& picked(queue, cutoff, at, Seq::new(at.len(), |i: int| after.replies[i].payload))
            &&& forall|i: int|
                0 <= i < n ==> {
                    let m = #[trigger] after.replies[i];
                    &&& m.msg_type is Data
                    &&& m.id == (relay.router.next_msg_id + i) % 0x1_0000_0000
                    &&& m.channel == msg.channel
                    &&& m.payload == queue[at[i]].data
                }
            &&& says_yes(after.replies[n], msg.id)
            &&& after.key == key
            &&& after.relay.store == relay.store
            &&& after.relay.prekeys == relay.prekeys
            &&& after.relay.router == (RouterView {
                next_msg_id: ((relay.router.next_msg_id + n) % 0x1_0000_0000) as u32,
                ..relay.router
            })
        }),
{
    let after = step(ctx, key, relay, Operation::Retrieve, msg, r);
    let inner = msg.payload.skip(64);
    requests_reach_back_by_four_bytes(inner);
    let secs = ttl_of(inner);
    cutoffs_lie_back_in_seconds(r.now, secs);
    assert(cutoff == cutoff_of(r.now, secs));
    retrieving_leaves_nothing_out(relay.store, msg.channel, cutoff);
    let out = relay.store.retrieved(msg.channel, cutoff);
    let at = places(relay.store.queue(msg.channel), cutoff);
    assert(at.len() == out.len());
    assert(Seq::new(at.len(), |i: int| after.replies[i].payload) =~= out);
}

/// The same of a request that is handled at the time that the clocks say, with a proof by whoever
/// is logged in.
pub proof fn all_envelopes_are_handed_out_in_time(
    ctx: ConnectionCtx,
    key: Option<Seq<u8>>,
    relay: RelayView,
    msg: MessageView,
    clocks: Clocks,
    after: Step,
)
    requires
        handled_at(ctx, key, relay, Operation::Retrieve, msg, clocks, after),
        key is Some,
        msg.payload.len() >= 64,
        signed(key->0, channel_message(msg.channel), msg.payload.take(64)),
    ensures
        ({
            let queue = if relay.store.drops.contains_key(msg.channel) {
                relay.store.drops[msg.channel]
            } else {
                Seq::<EnvelopeView>::empty()
            };
            let at = places(queue, cutoff_of(clocks.store, ttl_of(msg.payload.skip(64))));
            let n = at.len() as int;
            &&& after.replies.len() == n + 1
            &&& forall|i: int| 0 <= i < n ==> (#[trigger] after.replies[i]).msg_type is Data
            &&& picked(
                queue,
                cutoff_of(clocks.store, ttl_of(msg.payload.skip(64))),
                at,
                Seq::new(at.len(), |i: int| after.replies[i].payload),
            )
            &&& says_yes(after.replies[n], msg.id)
            &&& after.relay.store == relay.store
        }),
{
    let outcomes = choose|outcomes: Seq<SendOutcome>|
        {
            let r = #[trigger] readings_of(key, Operation::Retrieve, msg, clocks, outcomes);
            &&& super::model::answers_all(key, relay, Operation::Retrieve, msg, r)
            &&& after == step(ctx, key, relay, Operation::Retrieve, msg, r)
        };
    let r = readings_of(key, Operation::Retrieve, msg, clocks, outcomes);
    let inner = msg.payload.skip(64);
    requests_reach_back_by_four_bytes(inner);
    cutoffs_lie_back_in_seconds(clocks.store, ttl_of(inner));
    let cutoff = cutoff_of(clocks.store, ttl_of(inner));
    all_envelopes_are_handed_out(ctx, key, relay, msg, r, cutoff);
}

/// A bundle with its proof is all that stands behind the proof. It is refused for the reason of the
/// store of bundles, or is the bundle of its channel from then on. Nothing else changes.
pub proof fn bundles_are_taken_in(
    ctx: ConnectionCtx,
    key: Option<Seq<u8>>,
    relay: RelayView,
    msg: MessageView,
    r: ReadingsView,
    bundle: Seq<u8>,
)
    requires
        key is Some,
        r.proof_valid,
        msg.payload.len() == 64 + bundle.len(),
        forall|i: int| 0 <= i < bundle.len() ==> #[trigger] bundle[i] == msg.payload[64 + i],
    ensures
        ({
            let after = step(ctx, key, relay, Operation::UploadBundle, msg, r);
            match relay.prekeys.refusal(bundle) {
                Some(reason) => turned_down(key, relay, msg.id, reason, after),
                None => {
                    &&& after.key == key
                    &&& after.relay.prekeys == relay.prekeys.after_upload(
                        msg.channel,
                        bundle,
                        r.now,
                    )
                    &&& after.relay.store == relay.store
                    &&& after.relay.router == relay.router
                    &&& after.replies.len() == 1
                    &&& says_yes(after.replies[0], msg.id)
                },
            }
        }),
{
    assert(bundle =~= msg.payload.skip(64));
}

/// Whoever is logged in is sent the bundle of a channel, whole, under the next number, and the
/// grant behind it; where there is none, that is the reason to refuse.
pub proof fn bundles_are_handed_out(
    ctx: ConnectionCtx,
    key: Option<Seq<u8>>,
    relay: RelayView,
    msg: MessageView,
    r: ReadingsView,
)
    ensures
        ({
            let after = step(ctx, key, relay, Operation::FetchBundle, msg, r);
            let there = relay.prekeys.bundles.contains_key(msg.channel);
            &&& key is None ==> turned_down(key, relay, msg.id, "not authenticated"@, after)
            &&& key is Some && !there ==> turned_down(
                key,
                relay,
                msg.id,
                "bundle not found"@,
                after,
            )
            &&& key is Some && there ==> {
                &&& after.replies.len() == 2
                &&& after.replies[0] == (MessageView {
                    msg_type: MessageType::BundleData,
                    id: relay.router.next_msg_id,
                    channel: msg.channel,
                    payload: relay.prekeys.bundles[msg.channel].data,
                })
                &&& says_yes(after.replies[1], msg.id)
                &&& after.key == key
                &&& after.relay.prekeys == relay.prekeys.after_fetch(msg.channel)
                &&& after.relay.store == relay.store
                &&& after.relay.router == (RouterView {
                    next_msg_id: ((relay.router.next_msg_id + 1) % 0x1_0000_0000) as u32,
                    ..relay.router
                })
            }
        }),
{
}

/// What is no request is not answered and changes nothing.
pub proof fn answers_are_not_answered(
    ctx: ConnectionCtx,
    key: Option<Seq<u8>>,
    relay: RelayView,
    msg: MessageView,
    r: ReadingsView,
)
    ensures
        ({
            let after = step(ctx, key, relay, Operation::Ignored, msg, r);
            &&& after.key == key
            &&& after.relay == relay
            &&& after.replies.len() == 0
        }),
{
}

/// Setting the record aside changes nothing else.
pub proof fn records_stand_aside(relay: RelayView, offers: Seq<Offer>)
    ensures
        ({
            let other = with_record(relay, offers);
            &&& other.router.offers == offers
            &&& other.router.channels == relay.router.channels
            &&& other.router.sub_counts == relay.router.sub_counts
            &&& other.router.next_id == relay.router.next_id
            &&& other.router.next_msg_id == relay.router.next_msg_id
            &&& other.router.max_subscriptions == relay.router.max_subscriptions
            &&& other.router.max_channels == relay.router.max_channels
            &&& other.router.slow_consumer_threshold == relay.router.slow_consumer_threshold
            &&& other.store == relay.store
            &&& other.prekeys == relay.prekeys
        }),
{
}

/// A frame that holds no message changes nothing and is not answered. One whose payload is longer
/// than the limit is refused under the number zero, and costs nothing. A message that there are no
/// tokens for is refused under its number. Any other is handled as the request that it is, and paid
/// for.
pub proof fn frames_are_handled_as_their_message(
    ctx: ConnectionCtx,
    key: Option<Seq<u8>>,
    bucket: BucketView,
    relay: RelayView,
    frame: Seq<u8>,
    now: u64,
    r: ReadingsView,
)
    requires
        frame.len() <= usize::MAX,
    ensures
        ({
            let after = frame_step(ctx, key, bucket, relay, frame, now, r);
            let m = decode(frame)->Ok_0;
            let long = frame.len() - 37 > ctx.max_payload_size;
            let cost = m.msg_type.cost();
            &&& decode(frame) is Err || long || !bucket.grants(now, cost) ==> after.key == key
                && after.relay == relay
            &&& decode(frame) is Err ==> after.bucket == bucket && after.replies.len() == 0
            &&& decode(frame) is Ok && long ==> {
                &&& after.bucket == bucket
                &&& after.replies.len() == 1
                &&& says_no(after.replies[0], 0, "payload too large"@)
            }
            &&& decode(frame) is Ok && !long ==> after.bucket == bucket.after(now, cost)
            &&& decode(frame) is Ok && !long && !bucket.grants(now, cost) ==> {
                &&& after.replies.len() == 1
                &&& says_no(after.replies[0], m.id, "rate limited"@)
            }
            &&& decode(frame) is Ok && !long && bucket.grants(now, cost) ==> {
                let handled = step(ctx, key, relay, Operation::of_type(m.msg_type), m, r);
                &&& after.key == handled.key
                &&& after.relay == handled.relay
                &&& after.replies == handled.replies
            }
        }),
{
    limits_refuse_long_payloads_only(frame, ctx.max_payload_size);
}

/// Frames go by the clocks: a message that there are tokens for is handled at the time that they
/// say, and all others as for any time.
pub proof fn frames_are_handled_in_time(
    ctx: ConnectionCtx,
    key: Option<Seq<u8>>,
    bucket: BucketView,
    relay: RelayView,
    frame: Seq<u8>,
    now: u64,
    clocks: Clocks,
    after: FrameStep,
)
    requires
        frame_handled_at(ctx, key, bucket, relay, frame, now, clocks, after),
        frame.len() <= usize::MAX,
    ensures
        ({
            let m = decode(frame)->Ok_0;
            let long = frame.len() - 37 > ctx.max_payload_size;
            let taken = decode(frame) is Ok && !long && bucket.grants(now, m.msg_type.cost());
            &&& taken ==> {
                &&& after.bucket == bucket.after(now, m.msg_type.cost())
                &&& handled_at(
                    ctx,
                    key,
                    relay,
                    Operation::of_type(m.msg_type),
                    m,
                    clocks,
                    (Step { key: after.key, relay: after.relay, replies: after.replies }),
                )
            }
            &&& !taken ==> forall|r: ReadingsView|
                after == #[trigger] frame_step(ctx, key, bucket, relay, frame, now, r)
        }),
{
    limits_refuse_long_payloads_only(frame, ctx.max_payload_size);
    let m = decode(frame)->Ok_0;
    let op = Operation::of_type(m.msg_type);
    let outcomes = choose|outcomes: Seq<SendOutcome>|
        {
            let r = #[trigger] readings_of(key, op, m, clocks, outcomes);
            &&& crate::protocol::message::decode_bounded(frame, Some(ctx.max_payload_size)) is Ok
                && bucket.grants(now, m.msg_type.cost()) ==> super::model::answers_all(
                key,
                relay,
                op,
                m,
                r,
            )
            &&& after == frame_step(ctx, key, bucket, relay, frame, now, r)
        };
    let r = readings_of(key, op, m, clocks, outcomes);
    assert(after == frame_step(ctx, key, bucket, relay, frame, now, r));
}

} // verus!
