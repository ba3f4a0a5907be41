//! What a request does and how it is answered.

use crate::auth::model::{
    after_login, channel_message, login_key, login_message, login_refusal, login_signature,
    proof_refusal,
};
use crate::auth::{signed, valid_key};
use crate::bytes::from_be32;
use crate::clock::cutoff_of;
use crate::deaddrop::model::DeadDropView;
use crate::prekey::model::PreKeyView;
use crate::protocol::message::{ack_of, data_of, nack_of, MessageType, MessageView};
use crate::router::model::{next_u32, RouterView};
use crate::router::{Offer, OutboundSender, SendOutcome, Subscriber, SubscriberId};
use vstd::prelude::*;

verus! {

/// What a client can ask for.
#[derive(Debug, Clone, Copy, PartialEq, Eq, Structural)]
pub enum Operation {
    /// To log in. No message type has a code for it: whoever takes a login in, by whatever way it
    /// came, asks for it by this name.
    Authenticate,
    Publish,
    Subscribe,
    Unsubscribe,
    Retrieve,
    UploadBundle,
    FetchBundle,
    /// Nothing: clients have no use for such messages.
    Ignored,
}

impl Operation {
    /// What messages of a type ask for.
    pub open spec fn of_type(t: MessageType) -> Operation {
        match t {
            MessageType::Publish => Operation::Publish,
            MessageType::Subscribe => Operation::Subscribe,
            MessageType::Unsubscribe => Operation::Unsubscribe,
            MessageType::Retrieve => Operation::Retrieve,
            MessageType::UploadBundle => Operation::UploadBundle,
            MessageType::FetchBundle => Operation::FetchBundle,
            _ => Operation::Ignored,
        }
    }
}

/// What all connections share.
#[verifier::ext_equal]
pub struct RelayView {
    pub router: RouterView,
    pub store: DeadDropView,
    pub prekeys: PreKeyView,
}

impl RelayView {
    /// Every part is in order.
    pub open spec fn wf(self) -> bool {
        &&& self.router.wf()
        &&& self.store.wf()
        &&& self.prekeys.wf()
    }
}

/// What stays the same over a connection.
pub struct ConnectionCtx {
    /// The name of the connection.
    pub sub_id: SubscriberId,
    /// The queue of frames on their way to the client.
    pub outbound_tx: OutboundSender,
    /// How far a login may be off the time.
    pub auth_timeout_secs: u64,
    /// The longest payload that is taken.
    pub max_payload_size: usize,
}

/// What the outside world says while a request is handled.
pub struct ReadingsView {
    /// The time of day, in milliseconds of the Unix epoch.
    pub now_ms: u64,
    /// The time of the store that the request goes to, in nanoseconds.
    pub now: u64,
    /// Whether the login names a key.
    pub key_valid: bool,
    /// Whether the signature of the login is one of that key.
    pub signature_valid: bool,
    /// Whether the payload begins with a signature for the channel.
    pub proof_valid: bool,
    /// What the queues of the subscribers answered.
    pub outcomes: Seq<SendOutcome>,
}

/// What a request leaves behind.
#[verifier::ext_equal]
pub struct Step {
    pub key: Option<Seq<u8>>,
    pub relay: RelayView,
    pub replies: Seq<MessageView>,
}

/// How many seconds back the rest of a request for envelopes reaches: what its first four bytes
/// say, or a day where they are missing or zero.
pub open spec fn ttl_of(payload: Seq<u8>) -> u64 {
    if payload.len() < 4 || from_be32(payload.subrange(0, 4)) == 0 {
        86_400
    } else {
        from_be32(payload.subrange(0, 4)) as u64
    }
}

/// The number that the counter of messages gives out `n` messages after `id`.
pub open spec fn id_after(id: u32, n: nat) -> u32 {
    ((id + n) % 0x1_0000_0000) as u32
}

/// The messages that carry envelopes.
pub open spec fn data_replies(id: u32, channel: Seq<u8>, envelopes: Seq<Seq<u8>>) -> Seq<
    MessageView,
> {
    Seq::new(
        envelopes.len(),
        |i: int| data_of(id_after(id, i as nat), channel, envelopes[i]),
    )
}

/// The message that carries a bundle.
pub open spec fn bundle_of(id: u32, channel: Seq<u8>, payload: Seq<u8>) -> MessageView {
    MessageView { msg_type: MessageType::BundleData, id, channel, payload }
}

/// A request that is refused changes nothing, and is answered with the reason.
pub open spec fn refused(
    key: Option<Seq<u8>>,
    relay: RelayView,
    id: u32,
    reason: Seq<char>,
) -> Step {
    Step { key, relay, replies: seq![nack_of(id, reason)] }
}

/// A request that is granted is answered when `relay` is what it has become.
pub open spec fn granted(key: Option<Seq<u8>>, relay: RelayView, id: u32) -> Step {
    Step { key, relay, replies: seq![ack_of(id)] }
}

/// Handling a login.
pub open spec fn authenticate_step(
    ctx: ConnectionCtx,
    key: Option<Seq<u8>>,
    relay: RelayView,
    msg: MessageView,
    r: ReadingsView,
) -> Step {
    let refusal = login_refusal(
        msg.payload,
        ctx.auth_timeout_secs,
        r.now_ms,
        r.key_valid,
        r.signature_valid,
    );
    match refusal {
        Some(reason) => refused(key, relay, msg.id, reason),
        None => granted(after_login(key, msg.payload, refusal), relay, msg.id),
    }
}

/// Handling an envelope for a channel: it is stored, and goes out to the subscribers.
pub open spec fn publish_step(
    key: Option<Seq<u8>>,
    relay: RelayView,
    msg: MessageView,
    r: ReadingsView,
) -> Step {
    match publish_refusal(key, relay, msg, r.proof_valid) {
        Some(reason) => refused(key, relay, msg.id, reason),
        None => granted(
            key,
            RelayView {
                store: relay.store.after_store(msg.channel, msg.payload.skip(64), r.now),
                router: relay.router.after_publish(
                    msg.channel,
                    msg.payload.skip(64),
                    r.outcomes,
                ),
                ..relay
            },
            msg.id,
        ),
    }
}

/// Why an envelope is refused, if it is.
pub open spec fn publish_refusal(
    key: Option<Seq<u8>>,
    relay: RelayView,
    msg: MessageView,
    proof_valid: bool,
) -> Option<Seq<char>> {
    match proof_refusal(key, msg.payload, proof_valid) {
        Some(reason) => Some(reason),
        None => relay.store.refusal(msg.channel, msg.payload.skip(64).len()),
    }
}

/// Handling a subscription.
pub open spec fn subscribe_step(
    ctx: ConnectionCtx,
    key: Option<Seq<u8>>,
    relay: RelayView,
    msg: MessageView,
    r: ReadingsView,
) -> Step {
    match proof_refusal(key, msg.payload, r.proof_valid) {
        Some(reason) => refused(key, relay, msg.id, reason),
        None => match relay.router.refusal(msg.channel, ctx.sub_id) {
            Some(reason) => refused(key, relay, msg.id, reason),
            None => granted(
                key,
                RelayView {
                    router: relay.router.after_subscribe(
                        msg.channel,
                        Subscriber { id: ctx.sub_id, sender: ctx.outbound_tx, drop_count: 0 },
                    ),
                    ..relay
                },
                msg.id,
            ),
        },
    }
}

/// Handling the end of a subscription.
pub open spec fn unsubscribe_step(
    ctx: ConnectionCtx,
    key: Option<Seq<u8>>,
    relay: RelayView,
    msg: MessageView,
) -> Step {
    if key is None {
        refused(key, relay, msg.id, "not authenticated"@)
    } else {
        granted(
            key,
            RelayView {
                router: relay.router.after_unsubscribe(msg.channel, ctx.sub_id),
                ..relay
            },
            msg.id,
        )
    }
}

/// Handling a request for envelopes.
pub open spec fn retrieve_step(
    key: Option<Seq<u8>>,
    relay: RelayView,
    msg: MessageView,
    r: ReadingsView,
) -> Step {
    match proof_refusal(key, msg.payload, r.proof_valid) {
        Some(reason) => refused(key, relay, msg.id, reason),
        None => {
            let envelopes = relay.store.retrieved(
                msg.channel,
                cutoff_of(r.now, ttl_of(msg.payload.skip(64))),
            );
            let id = relay.router.next_msg_id;
            Step {
                key,
                relay: RelayView {
                    router: RouterView {
                        next_msg_id: id_after(id, envelopes.len()),
                        ..relay.router
                    },
                    ..relay
                },
                replies: data_replies(id, msg.channel, envelopes).push(ack_of(msg.id)),
            }
        },
    }
}

/// Handling a bundle that is uploaded.
pub open spec fn upload_step(
    key: Option<Seq<u8>>,
    relay: RelayView,
    msg: MessageView,
    r: ReadingsView,
) -> Step {
    match proof_refusal(key, msg.payload, r.proof_valid) {
        Some(reason) => refused(key, relay, msg.id, reason),
        None => match relay.prekeys.refusal(msg.payload.skip(64)) {
            Some(reason) => refused(key, relay, msg.id, reason),
            None => granted(
                key,
                RelayView {
                    prekeys: relay.prekeys.after_upload(
                        msg.channel,
                        msg.payload.skip(64),
                        r.now,
                    ),
                    ..relay
                },
                msg.id,
            ),
        },
    }
}

/// Handling a request for a bundle.
pub open spec fn fetch_step(key: Option<Seq<u8>>, relay: RelayView, msg: MessageView) -> Step {
    if key is None {
        refused(key, relay, msg.id, "not authenticated"@)
    } else {
        match relay.prekeys.fetched(msg.channel) {
            None => refused(key, relay, msg.id, "bundle not found"@),
            Some(bundle) => Step {
                key,
                relay: RelayView {
                    router: RouterView {
                        next_msg_id: next_u32(relay.router.next_msg_id),
                        ..relay.router
                    },
                    prekeys: relay.prekeys.after_fetch(msg.channel),
                    ..relay
                },
                replies: seq![
                    bundle_of(relay.router.next_msg_id, msg.channel, bundle),
                    ack_of(msg.id),
                ],
            },
        }
    }
}

/// Handling a request on the connection `ctx`, on which the holder of `key` is logged in.
pub open spec fn step(
    ctx: ConnectionCtx,
    key: Option<Seq<u8>>,
    relay: RelayView,
    op: Operation,
    msg: MessageView,
    r: ReadingsView,
) -> Step {
    match op {
        Operation::Authenticate => authenticate_step(ctx, key, relay, msg, r),
        Operation::Publish => publish_step(key, relay, msg, r),
        Operation::Subscribe => subscribe_step(ctx, key, relay, msg, r),
        Operation::Unsubscribe => unsubscribe_step(ctx, key, relay, msg),
        Operation::Retrieve => retrieve_step(key, relay, msg, r),
        Operation::UploadBundle => upload_step(key, relay, msg, r),
        Operation::FetchBundle => fetch_step(key, relay, msg),
        Operation::Ignored => Step { key, relay, replies: Seq::empty() },
    }
}

/// The relay with another record of what has been offered to queues.
pub open spec fn with_record(relay: RelayView, offers: Seq<Offer>) -> RelayView {
    RelayView { router: RouterView { offers, ..relay.router }, ..relay }
}

/// Readings of the clocks that requests go by.
#[derive(Clone, Copy)]
pub struct Clocks {
    /// The time of day, in milliseconds of the Unix epoch.
    pub now_ms: u64,
    /// The time of the store of envelopes, in nanoseconds.
    pub store: u64,
    /// The time of the store of bundles, in nanoseconds.
    pub prekeys: u64,
}

impl Clocks {
    /// The time of the store that a request goes to.
    pub open spec fn of(self, op: Operation) -> u64 {
        if op is UploadBundle {
            self.prekeys
        } else {
            self.store
        }
    }
}

/// What the outside world says of a request when clocks read `clocks` and the queues of the
/// subscribers answer with `outcomes`. Signatures are those of the keys that they have to be of.
pub open spec fn readings_of(
    key: Option<Seq<u8>>,
    op: Operation,
    msg: MessageView,
    clocks: Clocks,
    outcomes: Seq<SendOutcome>,
) -> ReadingsView {
    ReadingsView {
        now_ms: clocks.now_ms,
        now: clocks.of(op),
        key_valid: valid_key(login_key(msg.payload)),
        signature_valid: signed(
            login_key(msg.payload),
            login_message(msg.payload),
            login_signature(msg.payload),
        ),
        proof_valid: signed(key->0, channel_message(msg.channel), msg.payload.take(64)),
        outcomes,
    }
}

/// Whether there is an outcome for each subscriber that a request offers its envelope to.
pub open spec fn answers_all(
    key: Option<Seq<u8>>,
    relay: RelayView,
    op: Operation,
    msg: MessageView,
    r: ReadingsView,
) -> bool {
    op is Publish && publish_refusal(key, relay, msg, r.proof_valid) is None ==> r.outcomes.len()
        == relay.router.subscribers(msg.channel).len()
}

/// Whether a request that met `key` logged in and the relay as `relay` when clocks read `clocks`
/// has left `after`. Only what the queues of subscribers answer is left open.
pub open spec fn handled_at(
    ctx: ConnectionCtx,
    key: Option<Seq<u8>>,
    relay: RelayView,
    op: Operation,
    msg: MessageView,
    clocks: Clocks,
    after: Step,
) -> bool {
    exists|outcomes: Seq<SendOutcome>|
        {
            let r = #[trigger] readings_of(key, op, msg, clocks, outcomes);
            &&& answers_all(key, relay, op, msg, r)
            &&& after == step(ctx, key, relay, op, msg, r)
        }
}

/// Whether a request has left `after` for some reading of the clocks.
pub open spec fn handled(
    ctx: ConnectionCtx,
    key: Option<Seq<u8>>,
    relay: RelayView,
    op: Operation,
    msg: MessageView,
    after: Step,
) -> bool {
    exists|clocks: Clocks| #[trigger] handled_at(ctx, key, relay, op, msg, clocks, after)
}

} // verus!
