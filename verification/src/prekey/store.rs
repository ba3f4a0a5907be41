//! The store.

use super::laws::operations_keep_bundles_complete;
use super::model::{
    consumed, opks, BundleView, PreKeyView, MIN_BUNDLE_SIZE, OPK_COUNT_OFFSET,
    OPK_ENTRY_SIZE, OPK_START,
};
use crate::bytes::read_be16;
use crate::clock::{cutoff, cutoff_of, instant_now, nanos_since};
use crate::config::PreKeyConfig;
use crate::protocol::message::Channel;
use crate::sums::lemma_next_key;
use crate::table::{self, Table};
use dashmap::DashMap;
use std::time::Instant;
use vstd::prelude::*;
use vstd::slice::{slice_subrange, slice_to_vec};

verus! {

/// The number of one-time keys that a bundle says it has.
pub fn opk_count(bundle: &[u8]) -> (count: usize)
    ensures
        count == opks(bundle@),
        count <= u16::MAX,
{
    if bundle.len() < OPK_START {
        return 0;
    }
    read_be16(bundle, OPK_COUNT_OFFSET) as usize
}

/// The bundle without its first one-time key.
pub fn consume_one_opk(bundle: &[u8]) -> (left: Vec<u8>)
    ensures
        left@ == consumed(bundle@),
{
    let count: usize = opk_count(bundle);
    if count == 0 {
        return slice_to_vec(bundle);
    }
    let new_count: u16 = (count - 1) as u16;
    let mut out = slice_to_vec(slice_subrange(bundle, 0, OPK_COUNT_OFFSET));
    out.push((new_count / 0x100) as u8);
    out.push((new_count % 0x100) as u8);
    let remaining_start: usize = OPK_START + OPK_ENTRY_SIZE;
    if remaining_start <= bundle.len() {
        out.extend_from_slice(slice_subrange(bundle, remaining_start, bundle.len()));
    }
    assert(out@ =~= consumed(bundle@));
    out
}

/// A bundle and the time at which it was stored.
pub struct StoredBundle {
    pub data: Vec<u8>,
    pub stored_at: u64,
}

impl View for StoredBundle {
    type V = BundleView;

    open spec fn view(&self) -> BundleView {
        BundleView { data: self.data@, stored_at: self.stored_at }
    }
}

/// The bundles of the channels.
pub uninterp spec fn bundle_entries(table: DashMap<Channel, StoredBundle>) -> Map<
    Seq<u8>,
    StoredBundle,
>;

impl Table<Channel, StoredBundle> for DashMap<Channel, StoredBundle> {
    open spec fn entries(&self) -> Map<Seq<u8>, StoredBundle> {
        bundle_entries(*self)
    }
}

/// `DashMap::new`: a map without entries.
#[verifier::external_body]
fn no_bundles() -> (fresh: DashMap<Channel, StoredBundle>)
    ensures
        bundle_entries(fresh).dom() == Set::<Seq<u8>>::empty(),
{
    DashMap::new()
}

/// Bundles by channel, within limits on their size and age.
pub struct PreKeyStore {
    bundles: DashMap<Channel, StoredBundle>,
    epoch: Instant,
    config: PreKeyConfig,
}

impl View for PreKeyStore {
    type V = PreKeyView;

    closed spec fn view(&self) -> PreKeyView {
        PreKeyView {
            bundles: self.bundles.entries().map_values(|bundle: StoredBundle| bundle@),
            max_prekeys_per_user: self.config.max_prekeys_per_user as nat,
            max_bundle_size_bytes: self.config.max_bundle_size_bytes as nat,
            bundle_ttl_secs: self.config.bundle_ttl_secs,
        }
    }
}

impl PreKeyStore {
    /// An empty store.
    pub fn new(config: PreKeyConfig) -> (store: Self)
        ensures
            store@.wf(),
            store@ == (PreKeyView {
                bundles: Map::empty(),
                max_prekeys_per_user: config.max_prekeys_per_user as nat,
                max_bundle_size_bytes: config.max_bundle_size_bytes as nat,
                bundle_ttl_secs: config.bundle_ttl_secs,
            }),
    {
        let store = PreKeyStore { bundles: no_bundles(), epoch: instant_now(), config };
        assert(store@.bundles =~= Map::empty());
        store
    }

    /// Reads the clock of the store. Nothing is known of what it says.
    pub(crate) fn reading(&self) -> (now: u64) {
        nanos_since(&self.epoch)
    }

    /// Stores the bundle of a channel.
    pub fn upload(&mut self, channel: Channel, bundle_data: Vec<u8>) -> (r: Result<
        (),
        &'static str,
    >)
        requires
            old(self)@.wf(),
        ensures
            final(self)@.wf(),
            match r {
                Ok(()) => {
                    &&& old(self)@.refusal(bundle_data@) is None
                    &&& exists|now: u64|
                        final(self)@ == #[trigger] old(self)@.after_upload(
                            channel@,
                            bundle_data@,
                            now,
                        )
                },
                Err(reason) => {
                    &&& old(self)@.refusal(bundle_data@) == Some(reason@)
                    &&& final(self)@ == old(self)@
                },
            },
    {
        let now: u64 = self.reading();
        self.upload_at(channel, bundle_data, now)
    }

    /// Stores the bundle of a channel at the time `now`.
    pub fn upload_at(&mut self, channel: Channel, bundle_data: Vec<u8>, now: u64) -> (r: Result<
        (),
        &'static str,
    >)
        requires
            old(self)@.wf(),
        ensures
            final(self)@.wf(),
            match r {
                Ok(()) => {
                    &&& old(self)@.refusal(bundle_data@) is None
                    &&& final(self)@ == old(self)@.after_upload(channel@, bundle_data@, now)
                },
                Err(reason) => {
                    &&& old(self)@.refusal(bundle_data@) == Some(reason@)
                    &&& final(self)@ == old(self)@
                },
            },
    {
        if bundle_data.len() < MIN_BUNDLE_SIZE {
            return Err("bundle too small");
        }
        if bundle_data.len() > self.config.max_bundle_size_bytes {
            return Err("bundle too large");
        }
        let count: usize = opk_count(&bundle_data);
        if count > self.config.max_prekeys_per_user {
            return Err("too many one-time prekeys");
        }
        let expected_len: usize = OPK_START + count * OPK_ENTRY_SIZE;
        if bundle_data.len() != expected_len {
            return Err("bundle length inconsistent with OPK count");
        }
        proof {
            operations_keep_bundles_complete(self@, channel@, bundle_data@, now, None);
        }
        self.put_in(channel, StoredBundle { data: bundle_data, stored_at: now });
        Ok(())
    }

    /// Hands the bundle of a channel out, and takes the one-time key off it that goes with it.
    pub fn fetch(&mut self, channel: &Channel) -> (bundle: Option<Vec<u8>>)
        requires
            old(self)@.wf(),
        ensures
            final(self)@.wf(),
            final(self)@ == old(self)@.after_fetch(channel@),
            match bundle {
                Some(data) => old(self)@.fetched(channel@) == Some(data@),
                None => old(self)@.fetched(channel@) is None,
            },
    {
        proof {
            operations_keep_bundles_complete(self@, channel@, Seq::empty(), 0, None);
        }
        let entry = table::remove(&mut self.bundles, channel);
        assert(self@.bundles =~= old(self)@.bundles.remove(channel@));
        match entry {
            Some(stored) => {
                let left = consume_one_opk(&stored.data);
                self.put_in(*channel, StoredBundle { data: left, stored_at: stored.stored_at });
                assert(self@.bundles =~= old(self)@.after_fetch(channel@).bundles);
                Some(stored.data)
            },
            None => {
                assert(self@.bundles =~= old(self)@.bundles);
                None
            },
        }
    }

    /// Takes out what is older than the time to live.
    pub fn cleanup(&mut self)
        requires
            old(self)@.wf(),
        ensures
            final(self)@.wf(),
            exists|now: u64|
                final(self)@ == old(self)@.after_cleanup(
                    #[trigger] cutoff_of(now, old(self)@.bundle_ttl_secs),
                ),
    {
        let now: u64 = self.reading();
        self.cleanup_at(now);
    }

    /// Takes out what at the time `now` is older than the time to live.
    pub fn cleanup_at(&mut self, now: u64)
        requires
            old(self)@.wf(),
        ensures
            final(self)@.wf(),
            final(self)@ == old(self)@.after_cleanup(cutoff_of(now, old(self)@.bundle_ttl_secs)),
    {
        let point: u64 = match cutoff(now, self.config.bundle_ttl_secs) {
            Some(point) => point,
            None => return,
        };
        let ghost p = old(self)@;
        let keys = table::keys(&self.bundles);
        let ghost names = table::views(keys@);
        assert(names.to_set() =~= p.bundles.dom());
        for i in 0..keys.len()
            invariant
                p == old(self)@,
                names == table::views(keys@),
                names.no_duplicates(),
                names.to_set() == p.bundles.dom(),
                *self == (PreKeyStore { bundles: self.bundles, ..*old(self) }),
                forall|c: Seq<u8>| #[trigger]
                    self@.bundles.contains_key(c) <==> p.bundles.contains_key(c) && (names.take(
                        i as int,
                    ).contains(c) ==> p.bundles[c].stored_at >= point),
                forall|c: Seq<u8>| #[trigger]
                    self@.bundles.contains_key(c) ==> self@.bundles[c] == p.bundles[c],
        {
            let ghost name = names[i as int];
            let ghost before = self@;
            proof {
                assert(name == keys@[i as int]@);
                assert(names.to_set().contains(name));
                lemma_next_key(names, i as int);
                assert(before.bundles.contains_key(name));
            }
            let age = |bundle: &StoredBundle| -> (at: u64)
                ensures
                    at == bundle.stored_at,
                {
                    bundle.stored_at
                };
            if let Some(stored_at) = table::view(&self.bundles, &keys[i], age) {
                if stored_at < point {
                    let _ = table::remove(&mut self.bundles, &keys[i]);
                    assert(self@.bundles =~= before.bundles.remove(name));
                }
            }
        }
        proof {
            let want = p.after_cleanup(Some(point));
            assert(names.take(names.len() as int) =~= names);
            assert forall|c: Seq<u8>| p.bundles.contains_key(c) implies #[trigger] names.contains(
                c,
            ) by {
                assert(names.to_set().contains(c));
            }
            assert(self@.bundles =~= want.bundles);
            operations_keep_bundles_complete(p, Seq::empty(), Seq::empty(), 0, Some(point));
        }
    }

    /// Sets the bundle of a channel.
    fn put_in(&mut self, channel: Channel, bundle: StoredBundle)
        ensures
            *final(self) == (PreKeyStore { bundles: final(self).bundles, ..*old(self) }),
            final(self)@.bundles == old(self)@.bundles.insert(channel@, bundle@),
    {
        table::insert(&mut self.bundles, channel, bundle);
        assert(self@.bundles =~= old(self)@.bundles.insert(channel@, bundle@));
    }
}

} // verus!
