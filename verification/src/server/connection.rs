//! Handling the requests of a connection.

use super::model::{
    answers_all, data_replies, fetch_step, handled, handled_at, id_after, publish_refusal,
    publish_step, readings_of, retrieve_step, step, subscribe_step, ttl_of, unsubscribe_step,
    upload_step, with_record, Clocks, ConnectionCtx, Operation, ReadingsView, RelayView, Step,
};
use crate::auth::model::{
    after_login, channel_message, login_key, login_message, login_refusal, login_signature,
    proof_refusal,
};
use crate::auth::{signed, valid_key, AuthState};
use crate::bytes::read_be32;
use crate::clock::unix_millis;
use crate::config::RelayConfig;
use crate::deaddrop::model::DeadDropView;
use crate::deaddrop::store::list_view;
use crate::deaddrop::DeadDropStore;
use crate::prekey::model::PreKeyView;
use crate::prekey::PreKeyStore;
use crate::protocol::message::{
    ack_of, nack_of, Channel, Message, MessageType, MessageView,
};
use crate::router::model::{next_u32, RouterView};
use crate::router::{OutboundSender, Router, SendOutcome};
use vstd::prelude::*;
use vstd::slice::slice_to_vec;

verus! {

/// What all connections share.
pub struct Relay {
    pub router: Router,
    pub store: DeadDropStore,
    pub prekeys: PreKeyStore,
}

impl View for Relay {
    type V = RelayView;

    open spec fn view(&self) -> RelayView {
        RelayView { router: self.router@, store: self.store@, prekeys: self.prekeys@ }
    }
}

impl Relay {
    /// Every part is in order.
    pub open spec fn wf(&self) -> bool {
        &&& self.router.wf()
        &&& self.store.wf()
        &&& self.prekeys@.wf()
    }

    /// A relay that nobody has used, within the limits of the settings. Its envelopes take up to
    /// `max_total_bytes` bytes, and a subscriber that loses `slow_consumer_threshold` frames in a
    /// row is put out.
    pub fn new(
        config: RelayConfig,
        max_total_bytes: usize,
        slow_consumer_threshold: usize,
    ) -> (relay: Self)
        ensures
            relay.wf(),
            relay@ == (RelayView {
                router: RouterView {
                    channels: Map::empty(),
                    sub_counts: Map::empty(),
                    next_id: 1,
                    next_msg_id: 1,
                    max_subscriptions: config.limits.max_subscriptions_per_conn as nat,
                    max_channels: config.limits.max_total_channels as nat,
                    slow_consumer_threshold,
                    offers: Seq::empty(),
                },
                store: DeadDropView {
                    drops: Map::empty(),
                    max_per_drop: config.deaddrop.max_per_drop as nat,
                    max_channels: config.deaddrop.max_channels as nat,
                    max_total_bytes: max_total_bytes as nat,
                    default_ttl_secs: config.deaddrop.default_ttl_secs,
                },
                prekeys: PreKeyView {
                    bundles: Map::empty(),
                    max_prekeys_per_user: config.prekey.max_prekeys_per_user as nat,
                    max_bundle_size_bytes: config.prekey.max_bundle_size_bytes as nat,
                    bundle_ttl_secs: config.prekey.bundle_ttl_secs,
                },
            }),
            relay@.store.bytes() == 0,
    {
        Relay {
            router: Router::with_limits(
                config.limits.max_subscriptions_per_conn,
                config.limits.max_total_channels,
                slow_consumer_threshold,
            ),
            store: DeadDropStore::new(config.deaddrop, max_total_bytes),
            prekeys: PreKeyStore::new(config.prekey),
        }
    }

    /// Reads the clocks that requests go by. Nothing is known of what they say.
    pub(crate) fn clocks(&self) -> (clocks: Clocks) {
        Clocks {
            now_ms: unix_millis(),
            store: self.store.reading(),
            prekeys: self.prekeys.reading(),
        }
    }
}

/// What the outside world says while a request is handled.
pub struct Readings {
    /// The time of day, in milliseconds of the Unix epoch.
    pub now_ms: u64,
    /// The time of the store that the request goes to, in nanoseconds.
    pub now: u64,
    /// Whether the login names a key.
    pub key_valid: bool,
    /// Whether the signature of the login is one of that key.
    pub signature_valid: bool,
    /// Whether the payload begins with a signature for the channel.
    pub proof_valid: bool,
    /// What the queues of the subscribers answered.
    pub outcomes: Vec<SendOutcome>,
}

impl View for Readings {
    type V = ReadingsView;

    open spec fn view(&self) -> ReadingsView {
        ReadingsView {
            now_ms: self.now_ms,
            now: self.now,
            key_valid: self.key_valid,
            signature_valid: self.signature_valid,
            proof_valid: self.proof_valid,
            outcomes: self.outcomes@,
        }
    }
}

impl Operation {
    /// What messages of a type ask for.
    pub fn of(t: MessageType) -> (op: Operation)
        ensures
            op == Operation::of_type(t),
    {
        match t {
            MessageType::Publish => Operation::Publish,
            MessageType::Subscribe => Operation::Subscribe,
            MessageType::Unsubscribe => Operation::Unsubscribe,
            MessageType::Retrieve => Operation::Retrieve,
            MessageType::UploadBundle => Operation::UploadBundle,
            MessageType::FetchBundle => Operation::FetchBundle,
            _ => Operation::Ignored,
        }
    }
}

/// What messages say.
pub open spec fn messages(list: Seq<Message>) -> Seq<MessageView> {
    Seq::new(list.len(), |i: int| list[i]@)
}

/// `mpsc::Sender::clone`: another handle of the same queue.
#[verifier::external_body]
fn another(sender: &OutboundSender) -> (handle: OutboundSender)
    ensures
        handle == *sender,
{
    sender.clone()
}

/// How many seconds back the rest of a request for envelopes reaches.
pub fn parse_ttl(payload: &[u8]) -> (secs: u64)
    ensures
        secs == ttl_of(payload@),
{
    if payload.len() < 4 {
        return 86_400;
    }
    let secs: u32 = read_be32(payload, 0);
    if secs == 0 {
        86_400
    } else {
        secs as u64
    }
}

/// The list of one message.
pub(crate) fn only(msg: Message) -> (list: Vec<Message>)
    ensures
        messages(list@) == seq![msg@],
{
    let mut list: Vec<Message> = Vec::new();
    list.push(msg);
    assert(messages(list@) =~= seq![msg@]);
    list
}

/// The list of two messages.
fn both(first: Message, second: Message) -> (list: Vec<Message>)
    ensures
        messages(list@) == seq![first@, second@],
{
    let mut list: Vec<Message> = Vec::new();
    list.push(first);
    list.push(second);
    assert(messages(list@) =~= seq![first@, second@]);
    list
}

/// The messages that carry envelopes, each with a number of its own, and the answer behind them.
fn deliver(
    router: &mut Router,
    id: u32,
    channel: &Channel,
    envelopes: Vec<Vec<u8>>,
) -> (replies: Vec<Message>)
    requires
        old(router).wf(),
    ensures
        final(router).wf(),
        final(router)@ == (RouterView {
            next_msg_id: id_after(old(router)@.next_msg_id, envelopes@.len()),
            ..old(router)@
        }),
        messages(replies@) == data_replies(
            old(router)@.next_msg_id,
            channel@,
            list_view(envelopes@),
        ).push(ack_of(id)),
{
    let ghost first = router@.next_msg_id;
    let ghost all = data_replies(first, channel@, list_view(envelopes@));
    let mut replies: Vec<Message> = Vec::new();
    assert(messages(replies@) =~= all.take(0));
    for i in 0..envelopes.len()
        invariant
            router.wf(),
            first == old(router)@.next_msg_id,
            router@ == (RouterView { next_msg_id: id_after(first, i as nat), ..old(router)@ }),
            all == data_replies(first, channel@, list_view(envelopes@)),
            messages(replies@) == all.take(i as int),
    {
        let ghost before = replies@;
        let msg_id: u32 = router.alloc_msg_id();
        let envelope = envelopes[i].clone();
        assert(envelope@ =~= envelopes@[i as int]@);
        let msg = Message::data(msg_id, *channel, envelope);
        proof {
            assert(all[i as int] == msg@);
            assert(all.take(i + 1) =~= all.take(i as int).push(msg@));
            assert(next_u32(id_after(first, i as nat)) == id_after(first, (i + 1) as nat));
        }
        replies.push(msg);
        assert(messages(replies@) =~= messages(before).push(msg@));
    }
    let ghost before = replies@;
    replies.push(Message::ack(id));
    proof {
        assert(all.take(all.len() as int) =~= all);
        assert(messages(replies@) =~= messages(before).push(ack_of(id)));
    }
    replies
}

/// No messages.
pub(crate) fn nothing() -> (list: Vec<Message>)
    ensures
        messages(list@) == Seq::<MessageView>::empty(),
{
    let list: Vec<Message> = Vec::new();
    assert(messages(list@) =~= Seq::empty());
    list
}

/// The answer to a request that was granted, or was refused for a reason.
fn answer(id: u32, r: Result<(), &'static str>) -> (replies: Vec<Message>)
    ensures
        messages(replies@) == match r {
            Ok(()) => seq![ack_of(id)],
            Err(reason) => seq![nack_of(id, reason@)],
        },
{
    match r {
        Ok(()) => only(Message::ack(id)),
        Err(reason) => only(Message::nack(id, reason)),
    }
}

/// Whether `opened` is what a payload holds behind a proof of which it is known whether it is
/// valid, or why it holds nothing.
pub open spec fn opened_as(
    key: Option<Seq<u8>>,
    payload: Seq<u8>,
    proof_valid: bool,
    opened: Result<&[u8], &'static str>,
) -> bool {
    let refusal = proof_refusal(key, payload, proof_valid);
    match opened {
        Ok(inner) => refusal is None && inner@ == payload.skip(64),
        Err(reason) => refusal == Some(reason@),
    }
}

/// Stores an envelope whose payload has been opened, and gives back what it holds.
fn store_envelope(
    relay: &mut Relay,
    msg: &Message,
    opened: Result<&[u8], &'static str>,
    now: u64,
) -> (r: Result<Vec<u8>, &'static str>)
    requires
        old(relay).wf(),
    ensures
        final(relay).wf(),
        final(relay).router == old(relay).router,
        final(relay).prekeys == old(relay).prekeys,
        forall|key: Option<Seq<u8>>, proof_valid: bool|
            #![trigger opened_as(key, msg.payload@, proof_valid, opened)]
            opened_as(key, msg.payload@, proof_valid, opened) ==> {
                let refusal = publish_refusal(key, old(relay)@, msg@, proof_valid);
                match r {
                    Ok(data) => {
                        &&& refusal is None
                        &&& data@ == msg.payload@.skip(64)
                        &&& final(relay)@.store == old(relay)@.store.after_store(
                            msg.channel@,
                            msg.payload@.skip(64),
                            now,
                        )
                    },
                    Err(reason) => {
                        &&& refusal == Some(reason@)
                        &&& final(relay)@.store == old(relay)@.store
                    },
                }
            },
{
    match opened {
        Ok(inner) => relay.store.store_at(&msg.channel, slice_to_vec(inner), now),
        Err(reason) => Err(reason),
    }
}

/// Handles a login at the time of day `now_ms`.
fn on_authenticate(
    ctx: &ConnectionCtx,
    auth: &mut AuthState,
    msg: &Message,
    now_ms: u64,
) -> (replies: Vec<Message>)
    ensures
        ({
            let refusal = login_refusal(
                msg.payload@,
                ctx.auth_timeout_secs,
                now_ms,
                valid_key(login_key(msg.payload@)),
                signed(
                    login_key(msg.payload@),
                    login_message(msg.payload@),
                    login_signature(msg.payload@),
                ),
            );
            &&& final(auth)@ == after_login(old(auth)@, msg.payload@, refusal)
            &&& messages(replies@) == match refusal {
                Some(reason) => seq![nack_of(msg.id, reason)],
                None => seq![ack_of(msg.id)],
            }
        }),
{
    let r = auth.authenticate_at(&msg.payload, ctx.auth_timeout_secs, now_ms);
    answer(msg.id, r)
}

/// Whether `after` is what an envelope leaves behind that comes in at the time `now` of the store
/// of envelopes, by readings that are its own.
spec fn published(
    key: Option<Seq<u8>>,
    relay: RelayView,
    msg: MessageView,
    now: u64,
    after: Step,
    r: ReadingsView,
) -> bool {
    &&& r.now == now
    &&& r.proof_valid == signed(key->0, channel_message(msg.channel), msg.payload.take(64))
    &&& answers_all(key, relay, Operation::Publish, msg, r)
    &&& after == publish_step(key, relay, msg, r)
}

/// Handles an envelope at the time `now` of the store of envelopes.
fn on_publish(auth: &AuthState, relay: &mut Relay, msg: &Message, now: u64) -> (replies: Vec<
    Message,
>)
    requires
        old(relay).wf(),
    ensures
        final(relay).wf(),
        exists|r: ReadingsView|
            published(
                auth@,
                old(relay)@,
                msg@,
                now,
                (Step { key: auth@, relay: final(relay)@, replies: messages(replies@) }),
                r,
            ),
{
    let ghost before = relay@;
    let ghost mut r = ReadingsView {
        now_ms: 0,
        now,
        key_valid: false,
        signature_valid: false,
        proof_valid: signed(auth@->0, channel_message(msg.channel@), msg.payload@.take(64)),
        outcomes: Seq::empty(),
    };
    let opened = auth.verify_channel_proof(&msg.channel, &msg.payload);
    assert(opened_as(auth@, msg.payload@, r.proof_valid, opened));
    let replies = match store_envelope(relay, msg, opened, now) {
        Ok(payload) => {
            let _ = relay.router.publish(&msg.channel, &payload);
            proof {
                let outcomes = choose|outcomes: Seq<SendOutcome>|
                    {
                        &&& outcomes.len() == before.router.subscribers(msg.channel@).len()
                        &&& relay@.router == #[trigger] before.router.after_publish(
                            msg.channel@,
                            payload@,
                            outcomes,
                        )
                    };
                r = ReadingsView { outcomes, ..r };
            }
            answer(msg.id, Ok(()))
        },
        Err(reason) => answer(msg.id, Err(reason)),
    };
    proof {
        let after = Step { key: auth@, relay: relay@, replies: messages(replies@) };
        assert(published(auth@, before, msg@, now, after, r));
    }
    replies
}

/// Handles a subscription whose payload has been opened.
fn on_subscribe(
    ctx: &ConnectionCtx,
    relay: &mut Relay,
    msg: &Message,
    opened: Result<&[u8], &'static str>,
) -> (replies: Vec<Message>)
    requires
        old(relay).wf(),
    ensures
        final(relay).wf(),
        forall|key: Option<Seq<u8>>, r: ReadingsView|
            opened_as(key, msg.payload@, r.proof_valid, opened) ==> (Step {
                key,
                relay: final(relay)@,
                replies: messages(replies@),
            }) == #[trigger] subscribe_step(*ctx, key, old(relay)@, msg@, r),
{
    if let Err(reason) = opened {
        return answer(msg.id, Err(reason));
    }
    let r = relay.router.subscribe(&msg.channel, ctx.sub_id, another(&ctx.outbound_tx));
    answer(msg.id, r)
}

/// Handles the end of a subscription.
fn on_unsubscribe(
    ctx: &ConnectionCtx,
    auth: &AuthState,
    relay: &mut Relay,
    msg: &Message,
) -> (replies: Vec<Message>)
    requires
        old(relay).wf(),
    ensures
        final(relay).wf(),
        (Step { key: auth@, relay: final(relay)@, replies: messages(replies@) })
            == unsubscribe_step(*ctx, auth@, old(relay)@, msg@),
{
    if !auth.is_authenticated() {
        return answer(msg.id, Err("not authenticated"));
    }
    relay.router.unsubscribe(&msg.channel, ctx.sub_id);
    answer(msg.id, Ok(()))
}

/// Handles a request for envelopes whose payload has been opened, at the time `now` of their store.
fn on_retrieve(
    relay: &mut Relay,
    msg: &Message,
    opened: Result<&[u8], &'static str>,
    now: u64,
) -> (replies: Vec<Message>)
    requires
        old(relay).wf(),
    ensures
        final(relay).wf(),
        forall|key: Option<Seq<u8>>, r: ReadingsView|
            r.now == now && opened_as(key, msg.payload@, r.proof_valid, opened) ==> (Step {
                key,
                relay: final(relay)@,
                replies: messages(replies@),
            }) == #[trigger] retrieve_step(key, old(relay)@, msg@, r),
{
    let inner = match opened {
        Ok(inner) => inner,
        Err(reason) => return answer(msg.id, Err(reason)),
    };
    let ttl: u64 = parse_ttl(inner);
    let envelopes = relay.store.retrieve_at(&msg.channel, ttl, now);
    deliver(&mut relay.router, msg.id, &msg.channel, envelopes)
}

/// Handles a bundle that is uploaded, whose payload has been opened, at the time `now` of the store
/// of bundles.
fn on_upload(
    relay: &mut Relay,
    msg: &Message,
    opened: Result<&[u8], &'static str>,
    now: u64,
) -> (replies: Vec<Message>)
    requires
        old(relay).wf(),
    ensures
        final(relay).wf(),
        forall|key: Option<Seq<u8>>, r: ReadingsView|
            r.now == now && opened_as(key, msg.payload@, r.proof_valid, opened) ==> (Step {
                key,
                relay: final(relay)@,
                replies: messages(replies@),
            }) == #[trigger] upload_step(key, old(relay)@, msg@, r),
{
    let inner = match opened {
        Ok(inner) => inner,
        Err(reason) => return answer(msg.id, Err(reason)),
    };
    let r = relay.prekeys.upload_at(msg.channel, slice_to_vec(inner), now);
    answer(msg.id, r)
}

/// Handles a request for a bundle.
fn on_fetch(auth: &AuthState, relay: &mut Relay, msg: &Message) -> (replies: Vec<Message>)
    requires
        old(relay).wf(),
    ensures
        final(relay).wf(),
        (Step { key: auth@, relay: final(relay)@, replies: messages(replies@) }) == fetch_step(
            auth@,
            old(relay)@,
            msg@,
        ),
{
    if !auth.is_authenticated() {
        return answer(msg.id, Err("not authenticated"));
    }
    match relay.prekeys.fetch(&msg.channel) {
        Some(bundle) => {
            let bundle_msg = Message {
                msg_type: MessageType::BundleData,
                id: relay.router.alloc_msg_id(),
                channel: msg.channel,
                payload: bundle,
            };
            both(bundle_msg, Message::ack(msg.id))
        },
        None => answer(msg.id, Err("bundle not found")),
    }
}

/// Handles a request, and gives back the answers in their order. It reads the clocks, and does what
/// [`dispatch_at`] does with what they say.
pub fn dispatch(
    ctx: &ConnectionCtx,
    auth: &mut AuthState,
    relay: &mut Relay,
    op: Operation,
    msg: &Message,
) -> (replies: Vec<Message>)
    requires
        old(relay).wf(),
    ensures
        final(relay).wf(),
        handled(
            *ctx,
            old(auth)@,
            old(relay)@,
            op,
            msg@,
            Step { key: final(auth)@, relay: final(relay)@, replies: messages(replies@) },
        ),
{
    let clocks = relay.clocks();
    dispatch_at(ctx, auth, relay, op, msg, &clocks)
}

/// Handles a request when clocks read `clocks`, and gives back the answers in their order. It
/// checks signatures and offers envelopes to subscribers; what their queues answer decides who
/// stays subscribed, and nothing else.
pub fn dispatch_at(
    ctx: &ConnectionCtx,
    auth: &mut AuthState,
    relay: &mut Relay,
    op: Operation,
    msg: &Message,
    clocks: &Clocks,
) -> (replies: Vec<Message>)
    requires
        old(relay).wf(),
    ensures
        final(relay).wf(),
        handled_at(
            *ctx,
            old(auth)@,
            old(relay)@,
            op,
            msg@,
            *clocks,
            Step { key: final(auth)@, relay: final(relay)@, replies: messages(replies@) },
        ),
{
    let ghost (key, before) = (auth@, relay@);
    let ghost mut outcomes: Seq<SendOutcome> = Seq::empty();
    let replies = match op {
        Operation::Authenticate => on_authenticate(ctx, auth, msg, clocks.now_ms),
        Operation::Publish => {
            let replies = on_publish(auth, relay, msg, clocks.store);
            proof {
                let after = Step { key, relay: relay@, replies: messages(replies@) };
                let r = choose|r: ReadingsView|
                    published(key, before, msg@, clocks.store, after, r);
                outcomes = r.outcomes;
            }
            replies
        },
        Operation::Subscribe => {
            let opened = auth.verify_channel_proof(&msg.channel, &msg.payload);
            on_subscribe(ctx, relay, msg, opened)
        },
        Operation::Unsubscribe => on_unsubscribe(ctx, auth, relay, msg),
        Operation::Retrieve => {
            let opened = auth.verify_channel_proof(&msg.channel, &msg.payload);
            on_retrieve(relay, msg, opened, clocks.store)
        },
        Operation::UploadBundle => {
            let opened = auth.verify_channel_proof(&msg.channel, &msg.payload);
            on_upload(relay, msg, opened, clocks.prekeys)
        },
        Operation::FetchBundle => on_fetch(auth, relay, msg),
        Operation::Ignored => nothing(),
    };
    proof {
        let r = readings_of(key, op, msg@, *clocks, outcomes);
        assert((Step { key: auth@, relay: relay@, replies: messages(replies@) }) == step(
            *ctx,
            key,
            before,
            op,
            msg@,
            r,
        ));
    }
    replies
}

/// Handles a request of which it is known what the outside world says: frames have been offered to
/// the queues of the subscribers, signatures have been checked and clocks have been read. Nothing
/// is offered here, so that the record stays as it is.
pub fn dispatch_with(
    ctx: &ConnectionCtx,
    auth: &mut AuthState,
    relay: &mut Relay,
    op: Operation,
    msg: &Message,
    readings: &Readings,
) -> (replies: Vec<Message>)
    requires
        old(relay).wf(),
        op is Publish ==> readings.outcomes@.len() == old(relay)@.router.subscribers(
            msg.channel@,
        ).len(),
    ensures
        final(relay).wf(),
        ({
            let after = step(*ctx, old(auth)@, old(relay)@, op, msg@, readings@);
            &&& final(auth)@ == after.key
            &&& final(relay)@ == with_record(after.relay, old(relay)@.router.offers)
            &&& messages(replies@) == after.replies
        }),
{
    let ghost (key, before) = (auth@, relay@);
    let replies = match op {
        Operation::Authenticate => {
            let r = auth.log_in(
                &msg.payload,
                ctx.auth_timeout_secs,
                readings.now_ms,
                readings.key_valid,
                readings.signature_valid,
            );
            answer(msg.id, r)
        },
        Operation::Publish => {
            let opened = auth.open(&msg.payload, readings.proof_valid);
            assert(opened_as(key, msg.payload@, readings.proof_valid, opened));
            match store_envelope(relay, msg, opened, readings.now) {
                Ok(_) => {
                    let _ = relay.router.settle(&msg.channel, &readings.outcomes);
                    let _ = relay.router.alloc_msg_id();
                    answer(msg.id, Ok(()))
                },
                Err(reason) => answer(msg.id, Err(reason)),
            }
        },
        Operation::Subscribe => {
            let opened = auth.open(&msg.payload, readings.proof_valid);
            on_subscribe(ctx, relay, msg, opened)
        },
        Operation::Unsubscribe => on_unsubscribe(ctx, auth, relay, msg),
        Operation::Retrieve => {
            let opened = auth.open(&msg.payload, readings.proof_valid);
            on_retrieve(relay, msg, opened, readings.now)
        },
        Operation::UploadBundle => {
            let opened = auth.open(&msg.payload, readings.proof_valid);
            on_upload(relay, msg, opened, readings.now)
        },
        Operation::FetchBundle => on_fetch(auth, relay, msg),
        Operation::Ignored => nothing(),
    };
    proof {
        let after = step(*ctx, key, before, op, msg@, readings@);
        assert(relay@ =~= with_record(after.relay, before.router.offers));
    }
    replies
}

} // verus!
