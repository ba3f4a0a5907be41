//! Publish and subscribe.

pub mod history;
pub mod laws;
pub mod model;
pub mod outlet;
pub mod promises;

use crate::protocol::message::{data_of, encode, Channel, Message};
use crate::sums::{
    lemma_next_key, lemma_total_empty, lemma_total_of, lemma_wrapped, total_of, wrapped,
};
use crate::table::{self, Table};
use dashmap::DashMap;
use laws::{
    leaving_keeps_order, lemma_counters_aside, lemma_evict, lemma_gone_from, lemma_recounted,
    lemma_sent_to_nobody, lemma_subscribed_counts, lemma_without_id, sending_keeps_order,
    subscribing_keeps_order, unsubscribing_keeps_order,
};
use model::{
    evict, has_id, ids_distinct, is_gone, next_u32, next_u64, offers_to, put_out, recounted, sent,
    swap_removed, without_id, RouterView,
};
use std::sync::Arc;
use vstd::prelude::*;
use vstd::slice::slice_to_vec;

pub use outlet::{
    Mailbox, MailboxView, Offer, Outbox, OutboundFrame, OutboundSender, Outlet, SendOutcome,
};

verus! {

/// The name of a connection.
pub type SubscriberId = u64;

/// A connection that listens to a channel.
pub struct Subscriber {
    pub id: SubscriberId,
    pub sender: OutboundSender,
    pub drop_count: u32,
}

/// A connection that listens to a channel, and the way to its queue.
pub struct Listener {
    id: SubscriberId,
    outlet: Outlet,
    drop_count: u32,
}

impl View for Listener {
    type V = Subscriber;

    closed spec fn view(&self) -> Subscriber {
        Subscriber { id: self.id, sender: self.outlet.queue(), drop_count: self.drop_count }
    }
}

/// Who listens.
pub open spec fn listening(subs: Seq<Listener>) -> Seq<Subscriber> {
    Seq::new(subs.len(), |i: int| subs[i]@)
}

/// Whether the outlets of listeners belong to the outbox with this home.
spec fn at_home(subs: Seq<Listener>, home: int) -> bool {
    forall|i: int| 0 <= i < subs.len() ==> (#[trigger] subs[i]).outlet.home() == home
}

/// The subscribers of the channels.
pub uninterp spec fn channel_entries(table: DashMap<Channel, Vec<Listener>>) -> Map<
    Seq<u8>,
    Vec<Listener>,
>;

/// The numbers of subscriptions of the connections.
pub uninterp spec fn count_entries(table: DashMap<SubscriberId, usize>) -> Map<u64, usize>;

impl Table<Channel, Vec<Listener>> for DashMap<Channel, Vec<Listener>> {
    open spec fn entries(&self) -> Map<Seq<u8>, Vec<Listener>> {
        channel_entries(*self)
    }
}

impl Table<SubscriberId, usize> for DashMap<SubscriberId, usize> {
    open spec fn entries(&self) -> Map<u64, usize> {
        count_entries(*self)
    }
}

/// `DashMap::new`: a map without entries.
#[verifier::external_body]
fn no_channels() -> (fresh: DashMap<Channel, Vec<Listener>>)
    ensures
        channel_entries(fresh).dom() == Set::<Seq<u8>>::empty(),
{
    DashMap::new()
}

/// `DashMap::new`: a map without entries.
#[verifier::external_body]
fn no_counts() -> (fresh: DashMap<SubscriberId, usize>)
    ensures
        count_entries(fresh).dom() == Set::<u64>::empty(),
{
    DashMap::new()
}

/// The channels and who listens to them.
pub struct Router {
    channels: DashMap<Channel, Vec<Listener>>,
    sub_counts: DashMap<SubscriberId, usize>,
    channel_total: u64,
    next_id: u64,
    next_msg_id: u32,
    max_subscriptions: usize,
    max_channels: usize,
    slow_consumer_threshold: usize,
    outbox: Outbox,
}

impl View for Router {
    type V = RouterView;

    closed spec fn view(&self) -> RouterView {
        RouterView {
            channels: self.channels.entries().map_values(|subs: Vec<Listener>| listening(subs@)),
            sub_counts: self.sub_counts.entries().map_values(|n: usize| n as nat),
            next_id: self.next_id,
            next_msg_id: self.next_msg_id,
            max_subscriptions: self.max_subscriptions as nat,
            max_channels: self.max_channels as nat,
            slow_consumer_threshold: self.slow_consumer_threshold,
            offers: self.outbox.offers(),
        }
    }
}

/// Whether `id` is among listeners.
fn contains_id(subs: &Vec<Listener>, id: SubscriberId) -> (found: bool)
    ensures
        found == has_id(listening(subs@), id),
{
    for i in 0..subs.len()
        invariant
            forall|j: int| 0 <= j < i ==> (#[trigger] listening(subs@)[j]).id != id,
    {
        assert(listening(subs@)[i as int] == subs@[i as int]@);
        if subs[i].id == id {
            return true;
        }
    }
    false
}

/// Takes `id` out of listeners.
fn remove_id(subs: &mut Vec<Listener>, id: SubscriberId)
    ensures
        listening(final(subs)@) == without_id(listening(old(subs)@), id),
        forall|home: int| #[trigger] at_home(old(subs)@, home) ==> at_home(final(subs)@, home),
{
    let ghost all = listening(subs@);
    let ghost mut seen: int = 0;
    let mut i: usize = 0;
    proof {
        reveal(Seq::filter);
        assert(all.take(0) =~= Seq::empty());
        assert(all.skip(0) =~= all);
    }
    while i < subs.len()
        invariant
            0 <= seen <= all.len(),
            i == without_id(all.take(seen), id).len(),
            listening(subs@) =~= without_id(all.take(seen), id) + all.skip(seen),
            forall|home: int| #[trigger] at_home(old(subs)@, home) ==> at_home(subs@, home),
        decreases all.len() - seen,
    {
        let ghost before = subs@;
        proof {
            reveal(Seq::filter);
            assert(listening(subs@).len() == subs@.len());
            assert(seen < all.len());
            assert(listening(subs@)[i as int] == all[seen]);
            assert(subs@[i as int]@ == all[seen]);
            assert(all.take(seen + 1).drop_last() =~= all.take(seen));
            assert(all.take(seen + 1).last() == all[seen]);
        }
        if subs[i].id == id {
            let _ = subs.remove(i);
            assert(listening(subs@) =~= listening(before).remove(i as int));
        } else {
            i = i + 1;
        }
        proof {
            seen = seen + 1;
        }
    }
    proof {
        assert(listening(subs@).len() == subs@.len());
        assert(seen == all.len());
        assert(all.take(seen) =~= all);
    }
}

/// Offers a frame to each listener in turn.
fn offer(outbox: &mut Outbox, subs: &Vec<Listener>, frame: &OutboundFrame) -> (outcomes: Vec<
    SendOutcome,
>)
    requires
        at_home(subs@, old(outbox).home()),
    ensures
        final(outbox).home() == old(outbox).home(),
        outcomes@.len() == subs@.len(),
        final(outbox).offers() == old(outbox).offers() + offers_to(
            listening(subs@),
            frame@,
            outcomes@,
        ),
{
    let ghost subscribers = listening(subs@);
    let ghost before = outbox.offers();
    let mut outcomes: Vec<SendOutcome> = Vec::new();
    assert(before =~= before + offers_to(subscribers.take(0), frame@, outcomes@));
    for i in 0..subs.len()
        invariant
            subscribers == listening(subs@),
            at_home(subs@, outbox.home()),
            outbox.home() == old(outbox).home(),
            outcomes@.len() == i,
            outbox.offers() == before + offers_to(subscribers.take(i as int), frame@, outcomes@),
    {
        let ghost done = outcomes@;
        let outcome = outbox.try_send(&subs[i].outlet, frame);
        outcomes.push(outcome);
        proof {
            assert(subscribers[i as int] == subs@[i as int]@);
            assert(outbox.offers() =~= before + offers_to(
                subscribers.take(i + 1),
                frame@,
                outcomes@,
            ));
        }
    }
    assert(subscribers.take(subscribers.len() as int) =~= subscribers);
    outcomes
}

/// Brings the runs of lost frames up to date, marks the listeners to put out, and counts those
/// that took the frame.
fn tally(
    subs: &mut Vec<Listener>,
    outcomes: &Vec<SendOutcome>,
    threshold: u32,
    gone: &mut Vec<bool>,
) -> (delivered: usize)
    requires
        outcomes@.len() == old(subs)@.len(),
        old(gone)@.len() == 0,
    ensures
        listening(final(subs)@) == recounted(listening(old(subs)@), outcomes@),
        final(gone)@ == put_out(listening(old(subs)@), outcomes@, threshold),
        delivered == sent(outcomes@),
        forall|home: int| #[trigger] at_home(old(subs)@, home) ==> at_home(final(subs)@, home),
{
    let ghost all = listening(subs@);
    let mut delivered: usize = 0;
    proof {
        reveal(Seq::filter);
        assert(outcomes@.take(0) =~= Seq::empty());
    }
    for i in 0..outcomes.len()
        invariant
            all.len() == outcomes@.len() == subs@.len(),
            gone@.len() == i,
            delivered == sent(outcomes@.take(i as int)) <= i,
            forall|j: int| 0 <= j < i ==> (#[trigger] subs@[j])@ == recounted(all, outcomes@)[j],
            forall|j: int| i <= j < subs@.len() ==> (#[trigger] subs@[j])@ == all[j],
            forall|j: int| 0 <= j < i ==> gone@[j] == put_out(all, outcomes@, threshold)[j],
            forall|home: int| #[trigger] at_home(old(subs)@, home) ==> at_home(subs@, home),
    {
        proof {
            reveal(Seq::filter);
            assert(outcomes@.take(i + 1).drop_last() =~= outcomes@.take(i as int));
            assert(outcomes@.take(i + 1).last() == outcomes@[i as int]);
            assert(subs@[i as int]@ == all[i as int]);
        }
        match outcomes[i] {
            SendOutcome::Sent => {
                subs[i].drop_count = 0;
                delivered = delivered + 1;
                gone.push(false);
            },
            SendOutcome::Full => {
                let drops: u32 = subs[i].drop_count.wrapping_add(1);
                subs[i].drop_count = drops;
                gone.push(threshold > 0 && drops >= threshold);
            },
            SendOutcome::Closed => {
                gone.push(true);
            },
        }
    }
    proof {
        assert(outcomes@.take(outcomes@.len() as int) =~= outcomes@);
        assert(listening(subs@) =~= recounted(all, outcomes@));
        assert(gone@ =~= put_out(all, outcomes@, threshold));
    }
    delivered
}

impl Router {
    /// Whether all outlets belong to the outbox.
    spec fn homed(&self) -> bool {
        forall|c: Seq<u8>| #[trigger]
            self.channels.entries().contains_key(c) ==> at_home(
                self.channels.entries()[c]@,
                self.outbox.home(),
            )
    }

    /// Whether the count of channels agrees with the channels, and all outlets belong to the
    /// outbox.
    pub closed spec fn tallies(&self) -> bool {
        &&& self.channel_total == self@.channels.len()
        &&& self.homed()
    }

    /// The router is in order.
    pub open spec fn wf(&self) -> bool {
        &&& self@.wf()
        &&& self.tallies()
    }

    /// A router with the usual limits.
    pub fn new() -> (router: Self)
        ensures
            router.wf(),
            router@.channels == Map::<Seq<u8>, Seq<Subscriber>>::empty(),
            router@.sub_counts == Map::<SubscriberId, nat>::empty(),
            router@.next_id == 1,
            router@.next_msg_id == 1,
            router@.max_subscriptions == 50,
            router@.max_channels == 100_000,
            router@.slow_consumer_threshold == 10,
            router@.subscriptions() == 0,
            router@.offers == Seq::<Offer>::empty(),
    {
        Router::with_limits(50, 100_000, 10)
    }

    /// A router on which a connection can be subscribed to `max_subscriptions_per_conn` channels,
    /// of which there can be `max_channels`, and from which a subscriber is put out that loses
    /// `slow_consumer_threshold` frames in a row.
    pub fn with_limits(
        max_subscriptions_per_conn: usize,
        max_channels: usize,
        slow_consumer_threshold: usize,
    ) -> (router: Self)
        ensures
            router.wf(),
            router@.channels == Map::<Seq<u8>, Seq<Subscriber>>::empty(),
            router@.sub_counts == Map::<SubscriberId, nat>::empty(),
            router@.next_id == 1,
            router@.next_msg_id == 1,
            router@.max_subscriptions == max_subscriptions_per_conn,
            router@.max_channels == max_channels,
            router@.slow_consumer_threshold == slow_consumer_threshold,
            router@.subscriptions() == 0,
            router@.offers == Seq::<Offer>::empty(),
    {
        let router = Router {
            channels: no_channels(),
            sub_counts: no_counts(),
            channel_total: 0,
            next_id: 1,
            next_msg_id: 1,
            max_subscriptions: max_subscriptions_per_conn,
            max_channels,
            slow_consumer_threshold,
            outbox: Outbox::new(),
        };
        proof {
            let r = router@;
            assert(r.channels =~= Map::empty());
            assert(r.sub_counts =~= Map::empty());
            let sizes = r.channels.map_values(|subs: Seq<Subscriber>| subs.len());
            assert(sizes.dom() =~= Set::empty());
            lemma_total_empty(sizes);
            assert forall|id: SubscriberId| #[trigger]
                r.sub_count(id) == r.channels_of(id).len() && r.sub_count(id)
                    <= r.max_subscriptions by {
                assert(r.channels_of(id) =~= Set::empty());
            }
        }
        router
    }

    /// A name for a new connection.
    pub fn next_subscriber_id(&mut self) -> (id: SubscriberId)
        requires
            old(self).wf(),
        ensures
            final(self).wf(),
            id == old(self)@.next_id,
            final(self)@ == (RouterView { next_id: next_u64(old(self)@.next_id), ..old(self)@ }),
    {
        let id: u64 = self.next_id;
        self.next_id = id.wrapping_add(1);
        proof {
            lemma_counters_aside(old(self)@, self@);
        }
        id
    }

    /// A number for a new message.
    pub fn alloc_msg_id(&mut self) -> (id: u32)
        requires
            old(self).wf(),
        ensures
            final(self).wf(),
            id == old(self)@.next_msg_id,
            final(self)@ == (RouterView {
                next_msg_id: next_u32(old(self)@.next_msg_id),
                ..old(self)@
            }),
    {
        let id: u32 = self.next_msg_id;
        self.next_msg_id = id.wrapping_add(1);
        proof {
            lemma_counters_aside(old(self)@, self@);
        }
        id
    }

    /// The number of subscriptions of a connection.
    fn count_of(&self, id: SubscriberId) -> (count: usize)
        ensures
            count == self@.sub_count(id),
    {
        let copy = |n: &usize| -> (seen: usize)
            ensures
                seen == *n,
            {
                *n
            };
        match table::view(&self.sub_counts, &id, copy) {
            Some(n) => n,
            None => 0,
        }
    }

    /// Subscribes a connection to a channel.
    pub fn subscribe(
        &mut self,
        channel: &Channel,
        sub_id: SubscriberId,
        sender: OutboundSender,
    ) -> (r: Result<(), &'static str>)
        requires
            old(self).wf(),
        ensures
            final(self).wf(),
            match r {
                Ok(()) => {
                    &&& old(self)@.refusal(channel@, sub_id) is None
                    &&& final(self)@ == old(self)@.after_subscribe(
                        channel@,
                        (Subscriber { id: sub_id, sender, drop_count: 0 }),
                    )
                },
                Err(reason) => {
                    &&& old(self)@.refusal(channel@, sub_id) == Some(reason@)
                    &&& final(self)@ == old(self)@
                },
            },
    {
        let count: usize = self.count_of(sub_id);
        if count >= self.max_subscriptions {
            return Err("subscription limit reached");
        }
        let is_new = !table::contains_key(&self.channels, channel);
        if is_new {
            let total: u64 = self.channel_total;
            if total as usize >= self.max_channels {
                return Err("channel limit reached");
            }
            self.channel_total = total + 1;
        }
        let ghost sub = Subscriber { id: sub_id, sender, drop_count: 0 };
        let mut subs = match self.take_out(channel) {
            Some(subs) => subs,
            None => {
                let none: Vec<Listener> = Vec::new();
                assert(listening(none@) =~= Seq::empty());
                none
            },
        };
        assert(listening(subs@) == old(self)@.subscribers(channel@));
        if !contains_id(&subs, sub_id) {
            let ghost before = subs@;
            let outlet = Outlet::new(sender, &self.outbox);
            subs.push(Listener { id: sub_id, outlet, drop_count: 0 });
            assert(listening(subs@) =~= listening(before).push(sub));
            table::insert(&mut self.sub_counts, sub_id, count + 1);
        }
        self.put_back(channel, subs);
        proof {
            let want = old(self)@.after_subscribe(channel@, sub);
            assert(self@.channels =~= want.channels);
            assert(self@.sub_counts =~= want.sub_counts);
            subscribing_keeps_order(old(self)@, channel@, sub);
        }
        Ok(())
    }

    /// Takes a connection off a channel.
    pub fn unsubscribe(&mut self, channel: &Channel, sub_id: SubscriberId)
        requires
            old(self).wf(),
        ensures
            final(self).wf(),
            final(self)@ == old(self)@.after_unsubscribe(channel@, sub_id),
    {
        if let Some(subs) = self.take_out(channel) {
            let mut subs = subs;
            let before: usize = subs.len();
            let ghost all = listening(subs@);
            proof {
                lemma_without_id(all, sub_id);
                unsubscribing_keeps_order(old(self)@, channel@, sub_id);
                if has_id(all, sub_id) {
                    lemma_subscribed_counts(old(self)@, channel@, sub_id);
                }
            }
            remove_id(&mut subs, sub_id);
            let removed: usize = before - subs.len();
            if removed > 0 {
                self.uncount(sub_id, removed);
            }
            self.put_back(channel, subs);
            proof {
                let want = old(self)@.after_unsubscribe(channel@, sub_id);
                assert(self@.channels =~= want.channels);
                assert(self@.sub_counts =~= want.sub_counts);
            }
        }
    }

    /// Sends a message to the subscribers of a channel, and counts those that it reached. Each is
    /// offered the frame once, and nobody else is offered anything. What their queues answer
    /// decides the rest, as in [`Router::settle`].
    pub fn publish(&mut self, channel: &Channel, payload: &[u8]) -> (delivered: usize)
        requires
            old(self).wf(),
        ensures
            final(self).wf(),
            exists|outcomes: Seq<SendOutcome>|
                {
                    &&& outcomes.len() == old(self)@.subscribers(channel@).len()
                    &&& delivered == sent(outcomes)
                    &&& final(self)@ == #[trigger] old(self)@.after_publish(
                        channel@,
                        payload@,
                        outcomes,
                    )
                },
    {
        let frame = self.data_frame(channel, payload);
        let ghost r = self@;
        let subs = match self.take_out(channel) {
            Some(subs) => subs,
            None => {
                proof {
                    lemma_sent_to_nobody(r, channel@);
                    let want = old(self)@.after_publish(channel@, payload@, Seq::empty());
                    assert(want.channels =~= r.channels);
                    assert(want.sub_counts =~= r.sub_counts);
                    assert(want.offers =~= r.offers);
                    assert(self@ == want);
                }
                return 0;
            },
        };
        let outcomes = offer(&mut self.outbox, &subs, &frame);
        let ghost offered = RouterView { offers: self@.offers, ..r };
        proof {
            assert(listening(subs@).len() == subs@.len());
            assert(self@ =~= (RouterView {
                channels: offered.channels.remove(channel@),
                ..offered
            }));
            lemma_counters_aside(r, offered);
        }
        let delivered: usize = self.finish(Ghost(offered), channel, subs, &outcomes);
        proof {
            let want = old(self)@.after_publish(channel@, payload@, outcomes@);
            let have = offered.after_sending(channel@, outcomes@);
            assert(have.sub_counts =~= want.sub_counts);
            assert(have.channels =~= want.channels);
            assert(self@ == want);
        }
        delivered
    }

    /// The frame that carries `payload` to the subscribers of a channel.
    pub fn data_frame(&mut self, channel: &Channel, payload: &[u8]) -> (frame: OutboundFrame)
        requires
            old(self).wf(),
        ensures
            final(self).wf(),
            frame@ == encode(data_of(old(self)@.next_msg_id, channel@, payload@)),
            final(self)@ == (RouterView {
                next_msg_id: next_u32(old(self)@.next_msg_id),
                ..old(self)@
            }),
    {
        let id: u32 = self.alloc_msg_id();
        let msg = Message::data(id, *channel, slice_to_vec(payload));
        Arc::new(msg.serialize())
    }

    /// Notes what became of a frame at each subscriber of a channel: those that take no frames
    /// any more, or have lost too many in a row, are put out. Counts the others that took it.
    pub fn settle(&mut self, channel: &Channel, outcomes: &Vec<SendOutcome>) -> (delivered: usize)
        requires
            old(self).wf(),
            outcomes@.len() == old(self)@.subscribers(channel@).len(),
        ensures
            final(self).wf(),
            delivered == sent(outcomes@),
            final(self)@ == old(self)@.after_sending(channel@, outcomes@),
    {
        let ghost r = old(self)@;
        match self.take_out(channel) {
            Some(subs) => {
                assert(listening(subs@).len() == subs@.len());
                self.finish(Ghost(r), channel, subs, outcomes)
            },
            None => {
                proof {
                    lemma_sent_to_nobody(r, channel@);
                    assert(outcomes@ =~= Seq::empty());
                }
                0
            },
        }
    }

    /// Notes what became of a frame at the listeners of a channel, which have been taken out of
    /// the router `r`, and puts those back that stay.
    fn finish(
        &mut self,
        Ghost(r): Ghost<RouterView>,
        channel: &Channel,
        subs: Vec<Listener>,
        outcomes: &Vec<SendOutcome>,
    ) -> (delivered: usize)
        requires
            r.wf(),
            r.channels.contains_key(channel@),
            listening(subs@) == r.channels[channel@],
            outcomes@.len() == subs@.len(),
            at_home(subs@, old(self).outbox.home()),
            old(self)@ == (RouterView { channels: r.channels.remove(channel@), ..r }),
            old(self).channel_total == r.channels.len(),
            old(self).homed(),
        ensures
            final(self).wf(),
            delivered == sent(outcomes@),
            final(self)@ == r.after_sending(channel@, outcomes@),
    {
        let mut subs = subs;
        let threshold: u32 = self.slow_consumer_threshold as u32;
        let ghost all = listening(subs@);
        let ghost counted = recounted(all, outcomes@);
        let ghost flags = put_out(all, outcomes@, threshold);
        let mut gone: Vec<bool> = Vec::new();
        let delivered: usize = tally(&mut subs, outcomes, threshold, &mut gone);
        proof {
            assert(listening(subs@) =~= counted);
            assert(listening(subs@).len() == subs@.len());
            assert(gone@ =~= flags);
            sending_keeps_order(r, channel@, outcomes@);
            lemma_recounted(all, outcomes@, flags);
            lemma_evict(counted, flags);
            assert forall|i: int| 0 <= i < gone@.len() && gone@[i] implies self@.sub_count(
                (#[trigger] listening(subs@)[i]).id,
            ) >= 1 by {
                assert(all[i].id == listening(subs@)[i].id);
                lemma_subscribed_counts(r, channel@, all[i].id);
            }
        }
        self.drop_marked(&mut subs, &gone);
        self.put_back(channel, subs);
        proof {
            let want = r.after_sending(channel@, outcomes@);
            assert(self@.channels =~= want.channels);
            assert(self@.sub_counts =~= want.sub_counts);
        }
        delivered
    }

    /// Takes the marked subscribers of a channel out, from the last one down, and off the counts.
    fn drop_marked(&mut self, subs: &mut Vec<Listener>, gone: &Vec<bool>)
        requires
            gone@.len() == old(subs)@.len(),
            ids_distinct(listening(old(subs)@)),
            forall|i: int|
                0 <= i < gone@.len() && gone@[i] ==> old(self)@.sub_count(
                    (#[trigger] listening(old(subs)@)[i]).id,
                ) >= 1,
        ensures
            *final(self) == (Router { sub_counts: final(self).sub_counts, ..*old(self) }),
            listening(final(subs)@) == evict(listening(old(subs)@), gone@),
            forall|home: int| #[trigger] at_home(old(subs)@, home) ==> at_home(final(subs)@, home),
            final(self)@.sub_counts.dom() == old(self)@.sub_counts.dom(),
            forall|id: SubscriberId| #[trigger]
                final(self)@.sub_counts.contains_key(id) ==> final(self)@.sub_counts[id]
                    == if is_gone(listening(old(subs)@), gone@, id) {
                    (old(self)@.sub_counts[id] - 1) as nat
                } else {
                    old(self)@.sub_counts[id]
                },
    {
        let ghost all = listening(subs@);
        let mut k: usize = gone.len();
        assert(gone@.take(k as int) =~= gone@);
        assert(gone@.skip(k as int) =~= Seq::empty());
        while k > 0
            invariant
                k <= gone@.len() == all.len(),
                k <= subs@.len(),
                all == listening(old(subs)@),
                forall|home: int| #[trigger] at_home(old(subs)@, home) ==> at_home(subs@, home),
                ids_distinct(all),
                forall|i: int| 0 <= i < k ==> listening(subs@)[i] == all[i],
                evict(listening(subs@), gone@.take(k as int)) == evict(all, gone@),
                forall|i: int|
                    0 <= i < gone@.len() && gone@[i] ==> old(self)@.sub_count(
                        (#[trigger] all[i]).id,
                    ) >= 1,
                *self == (Router { sub_counts: self.sub_counts, ..*old(self) }),
                self@.sub_counts.dom() == old(self)@.sub_counts.dom(),
                forall|id: SubscriberId| #[trigger]
                    self@.sub_counts.contains_key(id) ==> self@.sub_counts[id] == if is_gone(
                        all.skip(k as int),
                        gone@.skip(k as int),
                        id,
                    ) {
                        (old(self)@.sub_counts[id] - 1) as nat
                    } else {
                        old(self)@.sub_counts[id]
                    },
            decreases k,
        {
            k = k - 1;
            let ghost before = self@.sub_counts;
            let ghost marks = gone@.take(k + 1);
            proof {
                assert(marks.drop_last() =~= gone@.take(k as int));
                assert(marks.last() == gone@[k as int]);
                lemma_gone_from(all, gone@, k as int);
            }
            if gone[k] {
                let ghost held = subs@;
                let evicted = subs.swap_remove(k);
                assert(evicted@ == listening(held)[k as int]);
                assert(listening(subs@) =~= swap_removed(listening(held), k as int));
                assert(!is_gone(all.skip(k + 1), gone@.skip(k + 1), evicted.id)) by {
                    if is_gone(all.skip(k + 1), gone@.skip(k + 1), evicted.id) {
                        let i = choose|i: int|
                            0 <= i < gone@.skip(k + 1).len() && gone@.skip(k + 1)[i] && (
                            #[trigger] all.skip(k + 1)[i]).id == evicted.id;
                        assert(all[k as int].id != all[k + 1 + i].id);
                    }
                }
                self.uncount(evicted.id, 1);
                assert(self@.sub_counts.dom() =~= old(self)@.sub_counts.dom());
            }
        }
        proof {
            assert(all.skip(0) =~= all);
            assert(gone@.skip(0) =~= gone@);
        }
    }

    /// Takes a connection off all channels.
    pub fn remove_subscriber(&mut self, sub_id: SubscriberId)
        requires
            old(self).wf(),
        ensures
            final(self).wf(),
            final(self)@ == old(self)@.after_remove(sub_id),
    {
        let ghost r = old(self)@;
        let keys = table::keys(&self.channels);
        let ghost names = table::views(keys@);
        assert(names.to_set() =~= r.channels.dom());
        for i in 0..keys.len()
            invariant
                r == old(self)@,
                names == table::views(keys@),
                names.no_duplicates(),
                names.to_set() == r.channels.dom(),
                r.channels.dom().finite(),
                self.tallies(),
                *self == (Router {
                    channels: self.channels,
                    channel_total: self.channel_total,
                    ..*old(self)
                }),
                self@.channels.dom().finite(),
                forall|c: Seq<u8>| #[trigger]
                    self@.channels.contains_key(c) <==> r.channels.contains_key(c) && (names.take(
                        i as int,
                    ).contains(c) ==> without_id(r.channels[c], sub_id).len() > 0),
                forall|c: Seq<u8>| #[trigger]
                    self@.channels.contains_key(c) ==> self@.channels[c] == if names.take(
                        i as int,
                    ).contains(c) {
                        without_id(r.channels[c], sub_id)
                    } else {
                        r.channels[c]
                    },
        {
            let ghost name = names[i as int];
            let ghost before = self@;
            proof {
                assert(name == keys@[i as int]@);
                assert(names.to_set().contains(name));
                lemma_next_key(names, i as int);
                assert(before.channels.contains_key(name));
            }
            if let Some(subs) = self.take_out(&keys[i]) {
                let mut subs = subs;
                remove_id(&mut subs, sub_id);
                self.put_back(&keys[i], subs);
            }
        }
        let _ = table::remove(&mut self.sub_counts, &sub_id);
        proof {
            let want = r.after_remove(sub_id);
            assert(names.take(names.len() as int) =~= names);
            assert forall|c: Seq<u8>| r.channels.contains_key(c) implies #[trigger] names.contains(
                c,
            ) by {
                assert(names.to_set().contains(c));
            }
            assert(self@.channels =~= want.channels);
            assert(self@.sub_counts =~= want.sub_counts);
            leaving_keeps_order(r, sub_id);
        }
    }

    /// The number of channels that have subscribers.
    pub fn channel_count(&self) -> (count: usize)
        ensures
            count == self@.channels.len(),
    {
        assert(self@.channels.dom() =~= self.channels.entries().dom());
        table::len(&self.channels)
    }

    /// The number of subscriptions over all channels.
    pub fn subscription_count(&self) -> (count: usize)
        requires
            self.wf(),
        ensures
            count == wrapped(self@.subscriptions()),
    {
        let keys = table::keys(&self.channels);
        let ghost names = table::views(keys@);
        let ghost sizes = self@.channels.map_values(|subs: Seq<Subscriber>| subs.len());
        let mut count: usize = 0;
        proof {
            assert(names.to_set() =~= sizes.dom());
            assert(self@.channels.dom() =~= sizes.dom());
            lemma_total_of(sizes, names, 0);
            lemma_wrapped(0, 0);
        }
        for i in 0..keys.len()
            invariant
                names == table::views(keys@),
                names.no_duplicates(),
                names.to_set() == sizes.dom(),
                sizes.dom().finite(),
                sizes == self@.channels.map_values(|subs: Seq<Subscriber>| subs.len()),
                count == wrapped(total_of(sizes, names, i as int)),
        {
            proof {
                lemma_total_of(sizes, names, i as int);
            }
            let size = |subs: &Vec<Listener>| -> (n: usize)
                ensures
                    n == subs@.len(),
                {
                    subs.len()
                };
            if let Some(n) = table::view(&self.channels, &keys[i], size) {
                proof {
                    lemma_wrapped(total_of(sizes, names, i as int), n);
                }
                count = count.wrapping_add(n);
            }
        }
        count
    }

    /// Takes `n` off the subscriptions that are counted for a connection.
    fn uncount(&mut self, id: SubscriberId, n: usize)
        ensures
            *final(self) == (Router { sub_counts: final(self).sub_counts, ..*old(self) }),
            final(self)@.sub_counts == if old(self)@.sub_counts.contains_key(id) {
                old(self)@.sub_counts.insert(
                    id,
                    if old(self)@.sub_count(id) >= n {
                        (old(self)@.sub_count(id) - n) as nat
                    } else {
                        0
                    },
                )
            } else {
                old(self)@.sub_counts
            },
    {
        if let Some(count) = table::remove(&mut self.sub_counts, &id) {
            table::insert(&mut self.sub_counts, id, count.saturating_sub(n));
            assert(self@.sub_counts =~= old(self)@.sub_counts.insert(
                id,
                count.saturating_sub(n) as nat,
            ));
        } else {
            assert(self@.sub_counts =~= old(self)@.sub_counts);
        }
    }

    /// Takes the subscribers of a channel out.
    fn take_out(&mut self, channel: &Channel) -> (subs: Option<Vec<Listener>>)
        requires
            old(self).homed(),
        ensures
            final(self).homed(),
            *final(self) == (Router { channels: final(self).channels, ..*old(self) }),
            final(self)@.channels == old(self)@.channels.remove(channel@),
            match subs {
                Some(subs) => {
                    &&& old(self)@.channels.contains_key(channel@)
                    &&& listening(subs@) == old(self)@.channels[channel@]
                    &&& at_home(subs@, old(self).outbox.home())
                },
                None => {
                    &&& !old(self)@.channels.contains_key(channel@)
                    &&& final(self)@ == old(self)@
                },
            },
    {
        let subs = table::remove(&mut self.channels, channel);
        proof {
            assert(self@.channels =~= old(self)@.channels.remove(channel@));
            if subs is None {
                assert(self@.channels =~= old(self)@.channels);
            }
        }
        subs
    }

    /// Puts the subscribers of a channel back that were taken out. Without any, the channel goes.
    fn put_back(&mut self, channel: &Channel, subs: Vec<Listener>)
        requires
            old(self)@.channels.dom().finite(),
            !old(self)@.channels.contains_key(channel@),
            old(self).channel_total == old(self)@.channels.len() + 1,
            old(self).homed(),
            at_home(subs@, old(self).outbox.home()),
        ensures
            *final(self) == (Router {
                channels: final(self).channels,
                channel_total: final(self).channel_total,
                ..*old(self)
            }),
            final(self)@.channels == old(self)@.with_subscribers(
                channel@,
                listening(subs@),
            ).channels,
            final(self).tallies(),
    {
        if subs.is_empty() {
            self.channel_total = self.channel_total - 1;
            assert(self@.channels =~= old(self)@.channels.remove(channel@));
        } else {
            table::insert(&mut self.channels, *channel, subs);
            assert(self@.channels =~= old(self)@.channels.insert(channel@, listening(subs@)));
        }
    }
}

} // verus!
