//! Who may connect.

use crate::table::{self, Table};
use dashmap::DashMap;
use vstd::prelude::*;

verus! {

/// The address that a connection comes from: a byte for its kind, and the address itself.
pub type PeerKey = [u8; 17];

/// The numbers of connections from the addresses.
pub uninterp spec fn peer_entries(table: DashMap<PeerKey, usize>) -> Map<Seq<u8>, usize>;

impl Table<PeerKey, usize> for DashMap<PeerKey, usize> {
    open spec fn entries(&self) -> Map<Seq<u8>, usize> {
        peer_entries(*self)
    }
}

/// `DashMap::new`: a map without entries.
#[verifier::external_body]
fn no_peers() -> (fresh: DashMap<PeerKey, usize>)
    ensures
        peer_entries(fresh).dom() == Set::<Seq<u8>>::empty(),
{
    DashMap::new()
}

/// What becomes of a connection that comes in.
#[derive(Debug, Clone, Copy, PartialEq, Eq, Structural)]
pub enum Admission {
    /// It is taken on.
    Admitted,
    /// There are too many connections.
    ConnectionLimit,
    /// There are too many connections from its address.
    PeerLimit,
}

/// The connections from each address, and how many there may be.
pub struct Door {
    counts: DashMap<PeerKey, usize>,
    max_per_ip: usize,
}

/// The connections from each address, and how many there may be.
#[verifier::ext_equal]
pub struct DoorView {
    pub counts: Map<Seq<u8>, usize>,
    pub max_per_ip: usize,
}

impl View for Door {
    type V = DoorView;

    closed spec fn view(&self) -> DoorView {
        DoorView { counts: self.counts.entries(), max_per_ip: self.max_per_ip }
    }
}

impl DoorView {
    /// The number of connections from an address.
    pub open spec fn count(self, peer: Seq<u8>) -> usize {
        if self.counts.contains_key(peer) {
            self.counts[peer]
        } else {
            0
        }
    }

    /// The door with another number of connections from an address.
    pub open spec fn with_count(self, peer: Seq<u8>, count: usize) -> DoorView {
        DoorView { counts: self.counts.insert(peer, count), ..self }
    }

    /// What becomes of a connection from an address. `permit` says whether there is room for
    /// another connection at all.
    pub open spec fn admission(self, permit: bool, peer: Seq<u8>) -> Admission {
        if !permit {
            Admission::ConnectionLimit
        } else if self.count(peer) >= self.max_per_ip {
            Admission::PeerLimit
        } else {
            Admission::Admitted
        }
    }

    /// The door after a connection has come in.
    pub open spec fn after_arrival(self, permit: bool, peer: Seq<u8>) -> DoorView {
        match self.admission(permit, peer) {
            Admission::ConnectionLimit => self,
            Admission::PeerLimit => self.with_count(peer, self.count(peer)),
            Admission::Admitted => self.with_count(peer, (self.count(peer) + 1) as usize),
        }
    }

    /// The door after a connection has gone. The count begins anew at the end of the machine's
    /// numbers.
    pub open spec fn after_departure(self, peer: Seq<u8>) -> DoorView {
        if !self.counts.contains_key(peer) {
            self
        } else if self.counts[peer] == 0 {
            self.with_count(peer, usize::MAX)
        } else {
            self.with_count(peer, (self.counts[peer] - 1) as usize)
        }
    }
}

impl Door {
    /// A door that nobody has come through, for up to `max_per_ip` connections from one address.
    pub fn new(max_per_ip: usize) -> (door: Self)
        ensures
            door@ == (DoorView { counts: Map::empty(), max_per_ip }),
    {
        let door = Door { counts: no_peers(), max_per_ip };
        assert(door@.counts =~= Map::empty());
        door
    }

    /// Decides on a connection from an address. `permit` says whether there is room for another
    /// connection at all.
    pub fn arrive(&mut self, permit: bool, peer: &PeerKey) -> (admission: Admission)
        ensures
            admission == old(self)@.admission(permit, peer@),
            final(self)@ == old(self)@.after_arrival(permit, peer@),
    {
        if !permit {
            return Admission::ConnectionLimit;
        }
        let current: usize = match table::remove(&mut self.counts, peer) {
            Some(count) => count,
            None => 0,
        };
        if current >= self.max_per_ip {
            table::insert(&mut self.counts, *peer, current);
            assert(self@.counts =~= old(self)@.counts.insert(peer@, current));
            return Admission::PeerLimit;
        }
        table::insert(&mut self.counts, *peer, current + 1);
        assert(self@.counts =~= old(self)@.counts.insert(peer@, (current + 1) as usize));
        Admission::Admitted
    }

    /// Notes that a connection from an address has gone.
    pub fn depart(&mut self, peer: &PeerKey)
        ensures
            final(self)@ == old(self)@.after_departure(peer@),
    {
        if let Some(count) = table::remove(&mut self.counts, peer) {
            let left: usize = count.wrapping_sub(1);
            table::insert(&mut self.counts, *peer, left);
            assert(self@.counts =~= old(self)@.counts.insert(peer@, left));
        } else {
            assert(self@.counts =~= old(self)@.counts);
        }
    }
}

/// No address ever has more connections than it may have: another one comes in only below the
/// limit, and one that goes makes room.
pub proof fn peers_keep_their_limit(d: DoorView, permit: bool, peer: Seq<u8>, other: Seq<u8>)
    requires
        d.count(other) <= d.max_per_ip,
    ensures
        d.after_arrival(permit, peer).count(other) <= d.max_per_ip,
        d.count(peer) > 0 ==> d.after_departure(peer).count(other) <= d.max_per_ip,
        d.admission(permit, peer) is Admitted <==> permit && d.count(peer) < d.max_per_ip,
{
}

/// A connection that comes in and goes leaves every count as it was.
pub proof fn departing_undoes_arriving(d: DoorView, peer: Seq<u8>, other: Seq<u8>)
    requires
        d.admission(true, peer) is Admitted,
    ensures
        d.after_arrival(true, peer).after_departure(peer).count(other) == d.count(other),
{
}

/// A connection that is refused leaves every count as it was.
pub proof fn refusing_changes_no_count(d: DoorView, permit: bool, peer: Seq<u8>, other: Seq<u8>)
    requires
        !(d.admission(permit, peer) is Admitted),
    ensures
        d.after_arrival(permit, peer).count(other) == d.count(other),
{
}

/// Connections from one address do not count for another.
pub proof fn peers_are_separate(d: DoorView, permit: bool, peer: Seq<u8>, other: Seq<u8>)
    requires
        other != peer,
    ensures
        d.after_arrival(permit, peer).count(other) == d.count(other),
        d.after_departure(peer).count(other) == d.count(other),
{
}

} // verus!
