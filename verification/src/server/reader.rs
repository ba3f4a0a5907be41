//! A connection from its first frame to its last.

use super::connection::{
    dispatch_at, dispatch_with, messages, nothing, only, Readings, Relay,
};
use super::model::{
    answers_all, readings_of, step, with_record, Clocks, ConnectionCtx, Operation, ReadingsView,
    RelayView,
};
use crate::auth::AuthState;
use crate::config::LimitsConfig;
use crate::protocol::message::{
    decode, decode_bounded, nack_of, Message, MessageView, ProtocolError,
};
use crate::ratelimit::bucket::{parts, BucketView};
use crate::ratelimit::TokenBucket;
use crate::router::model::{next_u64, RouterView};
use crate::router::{OutboundSender, SendOutcome};
use vstd::prelude::*;

verus! {

/// The reading end of a connection.
pub struct Reader {
    pub ctx: ConnectionCtx,
    pub auth: AuthState,
    pub limiter: TokenBucket,
}

/// What a frame leaves behind.
#[verifier::ext_equal]
pub struct FrameStep {
    pub key: Option<Seq<u8>>,
    pub bucket: BucketView,
    pub relay: RelayView,
    pub replies: Seq<MessageView>,
}

/// Handling a frame that comes in when the limiter's clock reads `now`. A frame that holds no
/// message is skipped, one that is too long is refused, and so is a request that its sender has no
/// tokens for.
pub open spec fn frame_step(
    ctx: ConnectionCtx,
    key: Option<Seq<u8>>,
    bucket: BucketView,
    relay: RelayView,
    frame: Seq<u8>,
    now: u64,
    r: ReadingsView,
) -> FrameStep {
    match decode_bounded(frame, Some(ctx.max_payload_size)) {
        Err(ProtocolError::PayloadTooLarge { .. }) => FrameStep {
            key,
            bucket,
            relay,
            replies: seq![nack_of(0, "payload too large"@)],
        },
        Err(_) => FrameStep { key, bucket, relay, replies: Seq::empty() },
        Ok(msg) => {
            let cost = msg.msg_type.cost();
            if bucket.grants(now, cost) {
                let after = step(ctx, key, relay, Operation::of_type(msg.msg_type), msg, r);
                FrameStep {
                    key: after.key,
                    bucket: bucket.after(now, cost),
                    relay: after.relay,
                    replies: after.replies,
                }
            } else {
                FrameStep {
                    key,
                    bucket: bucket.after(now, cost),
                    relay,
                    replies: seq![nack_of(msg.id, "rate limited"@)],
                }
            }
        },
    }
}

/// Whether a frame that came in when the limiter's clock read `now` and the others `clocks` has
/// left `after`. Only what the queues of subscribers answer is left open.
pub open spec fn frame_handled_at(
    ctx: ConnectionCtx,
    key: Option<Seq<u8>>,
    bucket: BucketView,
    relay: RelayView,
    frame: Seq<u8>,
    now: u64,
    clocks: Clocks,
    after: FrameStep,
) -> bool {
    let msg = decode(frame)->Ok_0;
    let op = Operation::of_type(msg.msg_type);
    exists|outcomes: Seq<SendOutcome>|
        {
            let r = #[trigger] readings_of(key, op, msg, clocks, outcomes);
            &&& decode_bounded(frame, Some(ctx.max_payload_size)) is Ok && bucket.grants(
                now,
                msg.msg_type.cost(),
            ) ==> answers_all(key, relay, op, msg, r)
            &&& after == frame_step(ctx, key, bucket, relay, frame, now, r)
        }
}

impl Reader {
    /// Takes a connection on: it gets a name of its own, nobody is logged in on it, and its bucket
    /// of tokens is full.
    pub fn open(
        relay: &mut Relay,
        outbound_tx: OutboundSender,
        limits: &LimitsConfig,
        auth_timeout_secs: u64,
        max_payload_size: usize,
    ) -> (reader: Self)
        requires
            old(relay).wf(),
        ensures
            final(relay).wf(),
            final(relay)@ == (RelayView {
                router: (RouterView {
                    next_id: next_u64(old(relay)@.router.next_id),
                    ..old(relay)@.router
                }),
                ..old(relay)@
            }),
            reader.ctx == (ConnectionCtx {
                sub_id: old(relay)@.router.next_id,
                outbound_tx,
                auth_timeout_secs,
                max_payload_size,
            }),
            reader.auth@ is None,
            reader.limiter@.wf(),
            reader.limiter@ == (BucketView {
                tokens: parts(limits.burst_size),
                last_refill_nanos: 0,
                rate: parts(limits.requests_per_second),
                capacity: parts(limits.burst_size),
            }),
    {
        let sub_id: u64 = relay.router.next_subscriber_id();
        Reader {
            ctx: ConnectionCtx { sub_id, outbound_tx, auth_timeout_secs, max_payload_size },
            auth: AuthState::new(),
            limiter: TokenBucket::new(limits.requests_per_second, limits.burst_size),
        }
    }

    /// Takes the message out of a frame that comes in when the limiter's clock reads `now`, if it
    /// holds one that there are tokens for; otherwise, how the frame is answered.
    fn take_in(&mut self, frame: &[u8], now: u64) -> (r: Result<Message, Vec<Message>>)
        requires
            old(self).limiter@.wf(),
        ensures
            final(self).limiter@.wf(),
            final(self).ctx == old(self).ctx,
            final(self).auth == old(self).auth,
            match decode_bounded(frame@, Some(old(self).ctx.max_payload_size)) {
                Ok(msg) => {
                    let cost = msg.msg_type.cost();
                    &&& final(self).limiter@ == old(self).limiter@.after(now, cost)
                    &&& match r {
                        Ok(taken) => old(self).limiter@.grants(now, cost) && taken@ == msg,
                        Err(replies) => {
                            &&& !old(self).limiter@.grants(now, cost)
                            &&& messages(replies@) == seq![nack_of(msg.id, "rate limited"@)]
                        },
                    }
                },
                Err(ProtocolError::PayloadTooLarge { .. }) => {
                    &&& final(self).limiter@ == old(self).limiter@
                    &&& r matches Err(replies) && messages(replies@) == seq![
                        nack_of(0, "payload too large"@),
                    ]
                },
                Err(_) => {
                    &&& final(self).limiter@ == old(self).limiter@
                    &&& r matches Err(replies) && messages(replies@) == Seq::<MessageView>::empty()
                },
            },
    {
        let msg = match Message::deserialize_bounded(frame, Some(self.ctx.max_payload_size)) {
            Ok(msg) => msg,
            Err(ProtocolError::PayloadTooLarge { size: _, max: _ }) => {
                return Err(only(Message::nack(0, "payload too large")));
            },
            Err(_) => return Err(nothing()),
        };
        if !self.limiter.try_acquire_at(now, msg.msg_type.token_cost()) {
            return Err(only(Message::nack(msg.id, "rate limited")));
        }
        Ok(msg)
    }

    /// Handles a frame, and gives back the answers in their order. It reads the clocks, and does
    /// what [`Reader::on_frame_at`] does with what they say.
    pub fn on_frame(&mut self, relay: &mut Relay, frame: &[u8]) -> (replies: Vec<Message>)
        requires
            old(relay).wf(),
            old(self).limiter@.wf(),
        ensures
            final(relay).wf(),
            final(self).limiter@.wf(),
            final(self).ctx == old(self).ctx,
            exists|now: u64, clocks: Clocks| #[trigger]
                frame_handled_at(
                    old(self).ctx,
                    old(self).auth@,
                    old(self).limiter@,
                    old(relay)@,
                    frame@,
                    now,
                    clocks,
                    (FrameStep {
                        key: final(self).auth@,
                        bucket: final(self).limiter@,
                        relay: final(relay)@,
                        replies: messages(replies@),
                    }),
                ),
    {
        let now: u64 = self.limiter.reading();
        let clocks = relay.clocks();
        self.on_frame_at(relay, frame, now, &clocks)
    }

    /// Handles a frame when the limiter's clock reads `now` and the others `clocks`, and gives back
    /// the answers in their order.
    pub fn on_frame_at(
        &mut self,
        relay: &mut Relay,
        frame: &[u8],
        now: u64,
        clocks: &Clocks,
    ) -> (replies: Vec<Message>)
        requires
            old(relay).wf(),
            old(self).limiter@.wf(),
        ensures
            final(relay).wf(),
            final(self).limiter@.wf(),
            final(self).ctx == old(self).ctx,
            frame_handled_at(
                old(self).ctx,
                old(self).auth@,
                old(self).limiter@,
                old(relay)@,
                frame@,
                now,
                *clocks,
                (FrameStep {
                    key: final(self).auth@,
                    bucket: final(self).limiter@,
                    relay: final(relay)@,
                    replies: messages(replies@),
                }),
            ),
    {
        let ghost (key, before) = (self.auth@, relay@);
        let ghost content = decode(frame@)->Ok_0;
        let msg = match self.take_in(frame, now) {
            Ok(msg) => msg,
            Err(replies) => {
                proof {
                    // Any readings will do.
                    let op = Operation::of_type(content.msg_type);
                    let _ = readings_of(key, op, content, *clocks, Seq::empty());
                }
                return replies;
            },
        };
        let op = Operation::of(msg.msg_type);
        let replies = dispatch_at(&self.ctx, &mut self.auth, relay, op, &msg, clocks);
        assert(content == msg@);
        replies
    }

    /// Handles a frame of which it is known what the outside world says: the limiter's clock reads
    /// `now`, and the rest is as in [`dispatch_with`].
    pub fn on_frame_with(
        &mut self,
        relay: &mut Relay,
        frame: &[u8],
        now: u64,
        readings: &Readings,
    ) -> (replies: Vec<Message>)
        requires
            old(relay).wf(),
            old(self).limiter@.wf(),
            decode(frame@) matches Ok(msg) ==> (msg.msg_type is Publish
                ==> readings.outcomes@.len() == old(relay)@.router.subscribers(msg.channel).len()),
        ensures
            final(relay).wf(),
            final(self).limiter@.wf(),
            final(self).ctx == old(self).ctx,
            ({
                let after = frame_step(
                    old(self).ctx,
                    old(self).auth@,
                    old(self).limiter@,
                    old(relay)@,
                    frame@,
                    now,
                    readings@,
                );
                &&& final(self).auth@ == after.key
                &&& final(self).limiter@ == after.bucket
                &&& final(relay)@ == with_record(after.relay, old(relay)@.router.offers)
                &&& messages(replies@) == after.replies
            }),
    {
        let msg = match self.take_in(frame, now) {
            Ok(msg) => msg,
            Err(replies) => return replies,
        };
        let op = Operation::of(msg.msg_type);
        dispatch_with(&self.ctx, &mut self.auth, relay, op, &msg, readings)
    }
}

} // verus!
