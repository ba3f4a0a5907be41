//! The store.

use super::laws::{
    cleaning_keeps_limits, lemma_bytes_insert, lemma_bytes_pop, lemma_bytes_remove,
    storing_keeps_limits,
};
use super::model::{
    bytes_of, fresh, newest, payloads, without_stale, DeadDropView, EnvelopeView,
};
use crate::clock::{cutoff, cutoff_of, instant_now, nanos_since, reaches_back};
use crate::config::DeadDropConfig;
use crate::protocol::message::Channel;
use crate::sums::{
    lemma_next_key, lemma_total_empty, lemma_total_of, lemma_total_remove, lemma_wrapped, total_of,
    wrapped,
};
use crate::table::{self, Table};
use dashmap::DashMap;
use std::collections::VecDeque;
use std::time::Instant;
use vstd::prelude::*;

verus! {

/// An envelope and the time at which it was stored.
pub struct StoredEnvelope {
    pub data: Vec<u8>,
    pub stored_at: u64,
}

impl View for StoredEnvelope {
    type V = EnvelopeView;

    open spec fn view(&self) -> EnvelopeView {
        EnvelopeView { data: self.data@, stored_at: self.stored_at }
    }
}

/// The envelopes of a channel.
pub open spec fn queue_view(queue: Seq<StoredEnvelope>) -> Seq<EnvelopeView> {
    Seq::new(queue.len(), |i: int| queue[i]@)
}

/// The payloads in a list.
pub open spec fn list_view(list: Seq<Vec<u8>>) -> Seq<Seq<u8>> {
    Seq::new(list.len(), |i: int| list[i]@)
}

/// The envelopes of the channels.
pub uninterp spec fn drop_entries(table: DashMap<Channel, VecDeque<StoredEnvelope>>) -> Map<
    Seq<u8>,
    VecDeque<StoredEnvelope>,
>;

impl Table<Channel, VecDeque<StoredEnvelope>> for DashMap<Channel, VecDeque<StoredEnvelope>> {
    open spec fn entries(&self) -> Map<Seq<u8>, VecDeque<StoredEnvelope>> {
        drop_entries(*self)
    }
}

/// `DashMap::new`: a map without entries.
#[verifier::external_body]
fn no_drops() -> (fresh: DashMap<Channel, VecDeque<StoredEnvelope>>)
    ensures
        drop_entries(fresh).dom() == Set::<Seq<u8>>::empty(),
{
    DashMap::new()
}

/// Envelopes by channel, within limits on their number, size and age.
pub struct DeadDropStore {
    drops: DashMap<Channel, VecDeque<StoredEnvelope>>,
    channel_total: usize,
    total_bytes: usize,
    max_total_bytes: usize,
    epoch: Instant,
    config: DeadDropConfig,
}

impl View for DeadDropStore {
    type V = DeadDropView;

    closed spec fn view(&self) -> DeadDropView {
        DeadDropView {
            drops: self.drops.entries().map_values(
                |queue: VecDeque<StoredEnvelope>| queue_view(queue@),
            ),
            max_per_drop: self.config.max_per_drop as nat,
            max_channels: self.config.max_channels as nat,
            max_total_bytes: self.max_total_bytes as nat,
            default_ttl_secs: self.config.default_ttl_secs,
        }
    }
}

/// Takes envelopes from the front until no more than `max` are left, and counts their bytes.
fn trim(queue: &mut VecDeque<StoredEnvelope>, max: usize) -> (freed: usize)
    requires
        bytes_of(queue_view(old(queue)@)) <= usize::MAX,
    ensures
        queue_view(final(queue)@) == newest(queue_view(old(queue)@), max as nat),
        freed + bytes_of(queue_view(final(queue)@)) == bytes_of(queue_view(old(queue)@)),
{
    let ghost all = queue_view(queue@);
    let ghost mut n: int = 0;
    let mut freed: usize = 0;
    proof {
        assert(all.skip(0) =~= all);
    }
    while queue.len() > max
        invariant
            0 <= n <= all.len(),
            n > 0 ==> all.len() - n >= max,
            queue_view(queue@) == all.skip(n),
            freed + bytes_of(all.skip(n)) == bytes_of(all) <= usize::MAX,
        decreases queue@.len(),
    {
        let ghost before = queue@;
        proof {
            lemma_bytes_pop(all.skip(n));
            assert(all.skip(n).skip(1) =~= all.skip(n + 1));
            assert(queue_view(queue@)[0] == queue@[0]@);
        }
        if let Some(evicted) = queue.pop_front() {
            freed = freed + evicted.data.len();
            proof {
                assert(queue_view(queue@) =~= all.skip(n + 1));
                n = n + 1;
            }
        }
    }
    freed
}

/// Takes envelopes from the front that were stored before `cutoff`, and counts their bytes.
fn drop_stale(queue: &mut VecDeque<StoredEnvelope>, cutoff: u64) -> (freed: usize)
    requires
        bytes_of(queue_view(old(queue)@)) <= usize::MAX,
    ensures
        queue_view(final(queue)@) == without_stale(queue_view(old(queue)@), cutoff),
        freed + bytes_of(queue_view(final(queue)@)) == bytes_of(queue_view(old(queue)@)),
{
    let ghost all = queue_view(queue@);
    let mut freed: usize = 0;
    while queue.len() > 0 && queue[0].stored_at < cutoff
        invariant
            without_stale(queue_view(queue@), cutoff) == without_stale(all, cutoff),
            freed + bytes_of(queue_view(queue@)) == bytes_of(all) <= usize::MAX,
        decreases queue@.len(),
    {
        let ghost now = queue_view(queue@);
        proof {
            lemma_bytes_pop(now);
            assert(now[0] == queue@[0]@);
        }
        if let Some(evicted) = queue.pop_front() {
            freed = freed + evicted.data.len();
            assert(queue_view(queue@) =~= now.skip(1));
        }
    }
    proof {
        let now = queue_view(queue@);
        if now.len() > 0 {
            assert(now[0] == queue@[0]@);
        }
    }
    freed
}

/// Copies what the envelopes hold that were stored at `cutoff` or later; without a cutoff, of all.
fn collect(queue: &VecDeque<StoredEnvelope>, cutoff: Option<u64>) -> (list: Vec<Vec<u8>>)
    ensures
        list_view(list@) == match cutoff {
            Some(point) => payloads(fresh(queue_view(queue@), point)),
            None => payloads(queue_view(queue@)),
        },
{
    let ghost all = queue_view(queue@);
    let mut list: Vec<Vec<u8>> = Vec::new();
    proof {
        reveal(Seq::filter);
        assert(all.take(0) =~= Seq::empty());
        assert(list_view(list@) =~= Seq::empty());
        if let Some(point) = cutoff {
            assert(payloads(fresh(all.take(0), point)) =~= Seq::empty());
        } else {
            assert(payloads(all.take(0)) =~= Seq::empty());
        }
    }
    for i in 0..queue.len()
        invariant
            all == queue_view(queue@),
            list_view(list@) == match cutoff {
                Some(point) => payloads(fresh(all.take(i as int), point)),
                None => payloads(all.take(i as int)),
            },
    {
        let ghost before = list@;
        let envelope = &queue[i];
        let wanted = match cutoff {
            Some(point) => envelope.stored_at >= point,
            None => true,
        };
        if wanted {
            let data = envelope.data.clone();
            assert(data@ =~= envelope.data@);
            list.push(data);
        }
        proof {
            reveal(Seq::filter);
            let upto = all.take(i + 1);
            assert(upto.drop_last() =~= all.take(i as int));
            assert(upto.last() == queue@[i as int]@);
            if wanted {
                assert(list_view(list@) =~= list_view(before).push(envelope.data@));
            }
            if let Some(point) = cutoff {
                if wanted {
                    assert(payloads(fresh(upto, point)) =~= payloads(
                        fresh(all.take(i as int), point),
                    ).push(envelope.data@));
                }
            } else {
                assert(payloads(upto) =~= payloads(all.take(i as int)).push(envelope.data@));
            }
        }
    }
    proof {
        assert(all.take(all.len() as int) =~= all);
    }
    list
}

impl DeadDropStore {
    /// Whether the counts of channels and of bytes agree with the envelopes.
    pub closed spec fn tallies(&self) -> bool {
        &&& self.channel_total == self@.drops.len()
        &&& self.total_bytes == self@.bytes()
    }

    /// The store is in order.
    pub open spec fn wf(&self) -> bool {
        &&& self@.wf()
        &&& self.tallies()
    }

    /// An empty store that holds up to `max_total_bytes` bytes.
    pub fn new(config: DeadDropConfig, max_total_bytes: usize) -> (store: Self)
        ensures
            store.wf(),
            store@ == (DeadDropView {
                drops: Map::empty(),
                max_per_drop: config.max_per_drop as nat,
                max_channels: config.max_channels as nat,
                max_total_bytes: max_total_bytes as nat,
                default_ttl_secs: config.default_ttl_secs,
            }),
            store@.bytes() == 0,
            store@.envelopes() == 0,
    {
        let store = DeadDropStore {
            drops: no_drops(),
            channel_total: 0,
            total_bytes: 0,
            max_total_bytes,
            epoch: instant_now(),
            config,
        };
        proof {
            assert(store@.drops =~= Map::empty());
            assert(store@.sizes().dom() =~= Set::empty());
            lemma_total_empty(store@.sizes());
            assert(store@.lengths().dom() =~= Set::empty());
            lemma_total_empty(store@.lengths());
        }
        store
    }

    /// Reads the clock of the store. Nothing is known of what it says.
    pub(crate) fn reading(&self) -> (now: u64) {
        nanos_since(&self.epoch)
    }

    /// Stores an envelope for a channel, and gives back what it holds.
    pub fn store(&mut self, channel: &Channel, raw: Vec<u8>) -> (r: Result<Vec<u8>, &'static str>)
        requires
            old(self).wf(),
        ensures
            final(self).wf(),
            match r {
                Ok(data) => {
                    &&& old(self)@.refusal(channel@, raw@.len()) is None
                    &&& data@ == raw@
                    &&& exists|now: u64|
                        final(self)@ == #[trigger] old(self)@.after_store(channel@, raw@, now)
                },
                Err(reason) => {
                    &&& old(self)@.refusal(channel@, raw@.len()) == Some(reason@)
                    &&& final(self)@ == old(self)@
                },
            },
    {
        let now: u64 = self.reading();
        self.store_at(channel, raw, now)
    }

    /// Stores an envelope for a channel at the time `now`, and gives back what it holds.
    pub fn store_at(&mut self, channel: &Channel, raw: Vec<u8>, now: u64) -> (r: Result<
        Vec<u8>,
        &'static str,
    >)
        requires
            old(self).wf(),
        ensures
            final(self).wf(),
            match r {
                Ok(data) => {
                    &&& old(self)@.refusal(channel@, raw@.len()) is None
                    &&& data@ == raw@
                    &&& final(self)@ == old(self)@.after_store(channel@, raw@, now)
                },
                Err(reason) => {
                    &&& old(self)@.refusal(channel@, raw@.len()) == Some(reason@)
                    &&& final(self)@ == old(self)@
                },
            },
    {
        let is_new = !table::contains_key(&self.drops, channel);
        if is_new && self.channel_total >= self.config.max_channels {
            return Err("deaddrop channel limit reached");
        }
        let data_len: usize = raw.len();
        if data_len > self.max_total_bytes - self.total_bytes {
            return Err("deaddrop storage limit reached");
        }
        let ghost d = self@;
        let data = raw.clone();
        assert(data@ =~= raw@);
        let mut queue = match self.take_out(channel) {
            Some(queue) => queue,
            None => VecDeque::new(),
        };
        let ghost old_queue = queue@;
        let ghost long = d.queue(channel@).push(EnvelopeView { data: raw@, stored_at: now });
        queue.push_back(StoredEnvelope { data, stored_at: now });
        proof {
            assert(queue_view(old_queue) =~= d.queue(channel@));
            assert(queue_view(queue@) =~= long);
            assert(long.drop_last() =~= d.queue(channel@));
            storing_keeps_limits(d, channel@, raw@, now);
            lemma_bytes_insert(d, channel@, long);
            let grown = DeadDropView { drops: d.drops.insert(channel@, long), ..d };
            assert(grown.sizes().contains_key(channel@));
            assert(grown.sizes().dom() =~= d.drops.dom().insert(channel@));
            lemma_total_remove(grown.sizes(), channel@);
            lemma_bytes_insert(d, channel@, newest(long, d.max_per_drop));
        }
        let freed: usize = trim(&mut queue, self.config.max_per_drop);
        self.total_bytes = self.total_bytes + data_len - freed;
        if is_new {
            self.channel_total = self.channel_total + 1;
        }
        self.put_in(*channel, queue);
        proof {
            let want = d.after_store(channel@, raw@, now);
            assert(self@.drops =~= want.drops);
        }
        Ok(raw)
    }

    /// What a channel holds that is no older than `max_age_secs` seconds.
    pub fn retrieve(&self, channel: &Channel, max_age_secs: u64) -> (list: Vec<Vec<u8>>)
        ensures
            exists|now: u64|
                list_view(list@) == self@.retrieved(
                    channel@,
                    #[trigger] cutoff_of(now, max_age_secs),
                ),
    {
        let now: u64 = self.reading();
        self.retrieve_at(channel, max_age_secs, now)
    }

    /// What a channel holds that at the time `now` is no older than `max_age_secs` seconds.
    pub fn retrieve_at(&self, channel: &Channel, max_age_secs: u64, now: u64) -> (list: Vec<
        Vec<u8>,
    >)
        ensures
            list_view(list@) == self@.retrieved(channel@, cutoff_of(now, max_age_secs)),
    {
        let point = cutoff(now, max_age_secs);
        let copy = |queue: &VecDeque<StoredEnvelope>| -> (list: Vec<Vec<u8>>)
            ensures
                list_view(list@) == match point {
                    Some(point) => payloads(fresh(queue_view(queue@), point)),
                    None => payloads(queue_view(queue@)),
                },
            {
                collect(queue, point)
            };
        match table::view(&self.drops, channel, copy) {
            Some(list) => list,
            None => {
                let list: Vec<Vec<u8>> = Vec::new();
                proof {
                    reveal(Seq::filter);
                    assert(list_view(list@) =~= self@.retrieved(channel@, point));
                }
                list
            },
        }
    }

    /// Takes out what is older than the time to live, and channels that hold nothing.
    pub fn cleanup(&mut self)
        requires
            old(self).wf(),
        ensures
            final(self).wf(),
            exists|now: u64, reaches: bool|
                final(self)@ == #[trigger] old(self)@.after_cleanup_at(now, reaches),
    {
        let reaches = reaches_back(self.config.default_ttl_secs);
        let now: u64 = self.reading();
        self.cleanup_at(now, reaches);
    }

    /// Takes out what at the time `now` is older than the time to live, and channels that hold
    /// nothing, if the machine's clock reaches back that far.
    pub fn cleanup_at(&mut self, now: u64, reaches: bool)
        requires
            old(self).wf(),
        ensures
            final(self).wf(),
            final(self)@ == old(self)@.after_cleanup_at(now, reaches),
    {
        if !reaches {
            return;
        }
        let point: u64 = match cutoff(now, self.config.default_ttl_secs) {
            Some(point) => point,
            None => 0,
        };
        let ghost d = old(self)@;
        let keys = table::keys(&self.drops);
        let ghost names = table::views(keys@);
        assert(names.to_set() =~= d.drops.dom());
        for i in 0..keys.len()
            invariant
                d == old(self)@,
                names == table::views(keys@),
                names.no_duplicates(),
                names.to_set() == d.drops.dom(),
                d.drops.dom().finite(),
                self.tallies(),
                *self == (DeadDropStore {
                    drops: self.drops,
                    channel_total: self.channel_total,
                    total_bytes: self.total_bytes,
                    ..*old(self)
                }),
                self@.drops.dom().finite(),
                forall|c: Seq<u8>| #[trigger]
                    self@.drops.contains_key(c) <==> d.drops.contains_key(c) && (names.take(
                        i as int,
                    ).contains(c) ==> without_stale(d.drops[c], point).len() > 0),
                forall|c: Seq<u8>| #[trigger]
                    self@.drops.contains_key(c) ==> self@.drops[c] == if names.take(
                        i as int,
                    ).contains(c) {
                        without_stale(d.drops[c], point)
                    } else {
                        d.drops[c]
                    },
        {
            let ghost name = names[i as int];
            let ghost before = self@;
            proof {
                assert(name == keys@[i as int]@);
                assert(names.to_set().contains(name));
                lemma_next_key(names, i as int);
                assert(before.drops.contains_key(name));
            }
            if let Some(queue) = self.take_out(&keys[i]) {
                let mut queue = queue;
                let ghost all = queue_view(queue@);
                let ghost left = without_stale(all, point);
                proof {
                    lemma_bytes_remove(before, name);
                    lemma_bytes_insert(before, name, left);
                }
                let freed: usize = drop_stale(&mut queue, point);
                self.total_bytes = self.total_bytes - freed;
                if queue.len() == 0 {
                    self.channel_total = self.channel_total - 1;
                    assert(self@ == (DeadDropView { drops: before.drops.remove(name), ..before }));
                } else {
                    self.put_in(keys[i], queue);
                    assert(self@.drops =~= before.drops.insert(name, left));
                }
            }
        }
        proof {
            let want = d.after_cleanup(point);
            assert(names.take(names.len() as int) =~= names);
            assert forall|c: Seq<u8>| d.drops.contains_key(c) implies #[trigger] names.contains(
                c,
            ) by {
                assert(names.to_set().contains(c));
            }
            assert(self@.drops =~= want.drops);
            cleaning_keeps_limits(d, point);
        }
    }

    /// Takes the envelopes of a channel out.
    fn take_out(&mut self, channel: &Channel) -> (queue: Option<VecDeque<StoredEnvelope>>)
        ensures
            *final(self) == (DeadDropStore { drops: final(self).drops, ..*old(self) }),
            final(self)@.drops == old(self)@.drops.remove(channel@),
            match queue {
                Some(queue) => {
                    &&& old(self)@.drops.contains_key(channel@)
                    &&& queue_view(queue@) == old(self)@.drops[channel@]
                },
                None => !old(self)@.drops.contains_key(channel@),
            },
    {
        let queue = table::remove(&mut self.drops, channel);
        assert(self@.drops =~= old(self)@.drops.remove(channel@));
        queue
    }

    /// Sets the envelopes of a channel.
    fn put_in(&mut self, channel: Channel, queue: VecDeque<StoredEnvelope>)
        ensures
            *final(self) == (DeadDropStore { drops: final(self).drops, ..*old(self) }),
            final(self)@.drops == old(self)@.drops.insert(channel@, queue_view(queue@)),
    {
        table::insert(&mut self.drops, channel, queue);
        assert(self@.drops =~= old(self)@.drops.insert(channel@, queue_view(queue@)));
    }

    /// The number of channels that hold envelopes.
    pub fn channel_count(&self) -> (count: usize)
        ensures
            count == self@.drops.len(),
    {
        assert(self@.drops.dom() =~= self.drops.entries().dom());
        table::len(&self.drops)
    }

    /// The number of envelopes over all channels.
    pub fn total_envelopes(&self) -> (count: usize)
        requires
            self.wf(),
        ensures
            count == wrapped(self@.envelopes()),
    {
        let keys = table::keys(&self.drops);
        let ghost names = table::views(keys@);
        let ghost lengths = self@.lengths();
        let mut count: usize = 0;
        proof {
            assert(names.to_set() =~= lengths.dom());
            assert(self@.drops.dom() =~= lengths.dom());
            lemma_total_of(lengths, names, 0);
            lemma_wrapped(0, 0);
        }
        for i in 0..keys.len()
            invariant
                names == table::views(keys@),
                names.no_duplicates(),
                names.to_set() == lengths.dom(),
                lengths.dom().finite(),
                lengths == self@.lengths(),
                count == wrapped(total_of(lengths, names, i as int)),
        {
            proof {
                lemma_total_of(lengths, names, i as int);
            }
            let length = |queue: &VecDeque<StoredEnvelope>| -> (n: usize)
                ensures
                    n == queue@.len(),
                {
                    queue.len()
                };
            if let Some(n) = table::view(&self.drops, &keys[i], length) {
                proof {
                    lemma_wrapped(total_of(lengths, names, i as int), n);
                }
                count = count.wrapping_add(n);
            }
        }
        count
    }
}

} // verus!
