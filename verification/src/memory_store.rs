//! A store that keeps everything in memory.

use crate::behaviour::Behaviour;
use crate::cache::Entry;
use crate::clock::Clock;
use crate::clock::SystemClock;
use crate::record;
use crate::record::PeerAddressRecord;
use crate::record::unexpired;
use crate::store::book_after;
use crate::store::book_removed_all;
use crate::store::book_unexpired;
use crate::store::book_updated;
use crate::store::bounded;
use crate::store::changes_record_of;
use crate::store::knows;
use crate::store::knows_any;
use crate::store::lemma_book_removed_all;
use crate::store::lemma_knows_any_push;
use crate::store::tells;
use crate::store::AddressSource;
use crate::store::Book;
use crate::store::Event;
use crate::store::LifecycleEvent;
use crate::store::Store;
use crate::types::address_views;
use crate::types::Address;
use crate::types::PeerId;
use std::collections::HashMap;
use vstd::prelude::*;

verus! {

/// How long an address is kept, and how many of them.
#[derive(Debug)]
pub struct Config {
    /// The age, in nanoseconds, beyond which an address that expires is
    /// dropped.
    record_ttl: u64,
    /// The number of addresses that are kept of one peer at most. The least
    /// recently used one makes room when a new one arrives.
    record_capacity: usize,
}

impl Config {
    /// The age, in nanoseconds, beyond which an address that expires is
    /// dropped.
    pub closed spec fn ttl(&self) -> u64 {
        self.record_ttl
    }

    /// The number of addresses that are kept of one peer at most.
    pub closed spec fn capacity(&self) -> nat {
        self.record_capacity as nat
    }

    /// A capacity of zero is no capacity.
    pub open spec fn wf(&self) -> bool {
        self.capacity() >= 1
    }

    /// A configuration with the given time to live, in nanoseconds, and the
    /// given capacity, which is positive.
    pub fn new(record_ttl: u64, record_capacity: usize) -> (config: Self)
        requires
            record_capacity > 0,
        ensures
            config.wf(),
            config.ttl() == record_ttl,
            config.capacity() == record_capacity,
    {
        Config { record_ttl, record_capacity }
    }

    /// The time to live, in nanoseconds.
    pub fn record_ttl(&self) -> (ttl: u64)
        ensures
            ttl == self.ttl(),
    {
        self.record_ttl
    }

    /// The capacity of one peer's record.
    pub fn record_capacity(&self) -> (capacity: usize)
        ensures
            capacity == self.capacity(),
    {
        self.record_capacity
    }
}

impl Default for Config {
    /// Ten minutes to live, and eight addresses for each peer.
    fn default() -> (config: Self)
        ensures
            config.wf(),
            config.ttl() == 600_000_000_000,
            config.capacity() == 8,
    {
        Config { record_ttl: 600_000_000_000, record_capacity: 8 }
    }
}

/// One address of a peer with what the store knows of it, as handed out to
/// the application.
#[derive(Debug)]
pub struct AddressRecord {
    /// When the address was last seen, on the clock of the store.
    pub last_seen: u64,
    /// The address of this record.
    pub address: Address,
    /// How the address was first learned.
    pub source: AddressSource,
    /// Whether the address expires.
    pub should_expire: bool,
}

impl View for AddressRecord {
    type V = Entry;

    open spec fn view(&self) -> Entry {
        (
            self.address@,
            record::AddressRecord {
                last_seen: self.last_seen,
                source: self.source,
                should_expire: self.should_expire,
            },
        )
    }
}

/// The time from `last_seen` to `now`; none where `now` is the earlier one.
pub open spec fn time_since(last_seen: u64, now: u64) -> u64 {
    if now >= last_seen {
        (now - last_seen) as u64
    } else {
        0
    }
}

impl AddressRecord {
    /// Puts an address and what is stored of it together.
    pub(crate) fn new(address: Address, stored: record::AddressRecord) -> (record: Self)
        ensures
            record@ == (address@, stored),
    {
        AddressRecord {
            last_seen: stored.last_seen,
            address,
            source: stored.source,
            should_expire: stored.should_expire,
        }
    }

    /// How much time has passed at `now` since the address was last seen.
    pub fn last_seen_since(&self, now: u64) -> (elapsed: u64)
        ensures
            elapsed == time_since(self.last_seen, now),
    {
        if now >= self.last_seen {
            now - self.last_seen
        } else {
            0
        }
    }

    /// How much time has passed since the address was last seen, by the
    /// reading of `clock`.
    pub fn last_seen<C: Clock>(&self, clock: &C) -> (elapsed: u64)
        ensures
            exists|now: u64| elapsed == #[trigger] time_since(self.last_seen, now),
    {
        let now = clock.now();
        let elapsed = self.last_seen_since(now);
        elapsed
    }
}

/// One peer of the address book.
struct PeerEntry {
    peer: PeerId,
    record: PeerAddressRecord,
}

/// A store that keeps the address book in memory.
///
/// The peers stand in a list, each once, and a map from fingerprints to
/// places in the list says where to look for a peer: finding one costs the
/// number of tracked peers that share its last eight bytes.
pub struct MemoryStore<C: Clock = SystemClock> {
    /// The peers that are tracked, connected or not, each once.
    address_book: Vec<PeerEntry>,
    /// For each fingerprint, the places in the address book of the peers
    /// that have it: a peer is looked for among those only.
    places: HashMap<u64, Vec<usize>>,
    config: Config,
    clock: C,
}

/// The fingerprint of an identifier: its last eight bytes, as a number.
spec fn fingerprint_of(bytes: Seq<u8>) -> u64
    decreases bytes.len(),
{
    if bytes.len() == 0 {
        0
    } else {
        (fingerprint_of(bytes.drop_last()) << 8) | (bytes.last() as u64)
    }
}

/// Computes the fingerprint of an identifier.
fn fingerprint(bytes: &Vec<u8>) -> (print: u64)
    ensures
        print == fingerprint_of(bytes@),
{
    let mut print: u64 = 0;
    let mut i: usize = 0;
    while i < bytes.len()
        invariant
            i <= bytes@.len(),
            print == fingerprint_of(bytes@.take(i as int)),
        decreases bytes@.len() - i,
    {
        proof {
            assert(bytes@.take(i + 1).drop_last() =~= bytes@.take(i as int));
        }
        print = (print << 8) | (bytes[i] as u64);
        i = i + 1;
    }
    proof {
        assert(bytes@.take(bytes@.len() as int) =~= bytes@);
    }
    print
}

/// Every peer of the address book is found under its fingerprint, and
/// every place that is listed under a fingerprint is one of the address
/// book.
spec fn indexed(entries: Seq<PeerEntry>, places: Map<u64, Vec<usize>>) -> bool {
    &&& forall|i: int|
        0 <= i < entries.len() ==> {
            &&& places.dom().contains(fingerprint_of((#[trigger] entries[i]).peer@))
            &&& places[fingerprint_of(entries[i].peer@)]@.contains(i as usize)
        }
    &&& forall|print: u64, k: int|
        places.dom().contains(print) && 0 <= k < places[print]@.len() ==> (
        #[trigger] places[print]@[k]) < entries.len()
}

/// Whether some entry is of this peer.
spec fn listed(entries: Seq<PeerEntry>, peer: Seq<u8>) -> bool {
    exists|i: int| 0 <= i < entries.len() && (#[trigger] entries[i]).peer@ == peer
}

/// The place of the entry of this peer, if there is one.
spec fn slot(entries: Seq<PeerEntry>, peer: Seq<u8>) -> int {
    choose|i: int| 0 <= i < entries.len() && (#[trigger] entries[i]).peer@ == peer
}

/// No peer is listed twice.
spec fn one_entry_each(entries: Seq<PeerEntry>) -> bool {
    forall|i: int, j: int|
        0 <= i < j < entries.len() ==> (#[trigger] entries[i]).peer@ != (#[trigger] entries[j]).peer@
}

/// The book that a list of entries stands for.
spec fn book_of(entries: Seq<PeerEntry>) -> Book {
    Map::new(|peer: Seq<u8>| listed(entries, peer), |peer: Seq<u8>| entries[slot(entries, peer)].record@)
}

/// Where no peer is listed twice, a peer is found where it stands.
proof fn lemma_slot(entries: Seq<PeerEntry>, i: int)
    requires
        one_entry_each(entries),
        0 <= i < entries.len(),
    ensures
        listed(entries, entries[i].peer@),
        slot(entries, entries[i].peer@) == i,
        book_of(entries).dom().contains(entries[i].peer@),
        book_of(entries)[entries[i].peer@] == entries[i].record@,
{
}

impl<C: Clock> MemoryStore<C> {
    /// The clock that the store reads.
    pub closed spec fn spec_clock(&self) -> C {
        self.clock
    }

    /// Every record is sound and of the configured capacity, no peer is
    /// listed twice, and every peer is found under its fingerprint.
    pub closed spec fn wf(&self) -> bool {
        &&& self.config.wf()
        &&& one_entry_each(self.address_book@)
        &&& indexed(self.address_book@, self.places@)
        &&& forall|i: int|
            0 <= i < self.address_book@.len() ==> {
                &&& (#[trigger] self.address_book@[i]).record.wf()
                &&& self.address_book@[i].record.capacity() == self.config.capacity()
            }
    }

    /// The address book.
    pub closed spec fn view(&self) -> Book {
        book_of(self.address_book@)
    }

    /// The configured capacity of one peer's record.
    pub closed spec fn record_capacity(&self) -> nat {
        self.config.capacity()
    }

    /// The configured time to live.
    pub closed spec fn record_ttl(&self) -> u64 {
        self.config.ttl()
    }

    /// In every state of the store, no tracked peer has more addresses than
    /// the configured capacity, and none has an address twice.
    pub proof fn lemma_capacity_respected(&self, peer: Seq<u8>)
        requires
            self.wf(),
            self@.dom().contains(peer),
        ensures
            self.record_capacity() >= 1,
            self@[peer].len() <= self.record_capacity(),
            record::distinct(self@[peer]),
    {
        self.lemma_bounded();
    }

    /// An empty store that reads the time from `clock`.
    pub fn with_clock(config: Config, clock: C) -> (store: Self)
        requires
            config.wf(),
        ensures
            store.wf(),
            store@ == Map::<Seq<u8>, Seq<Entry>>::empty(),
            store.record_capacity() == config.capacity(),
            store.record_ttl() == config.ttl(),
            store.spec_clock() == clock,
    {
        let store = MemoryStore { address_book: Vec::new(), places: HashMap::new(), config, clock };
        store
    }

    /// The clock that the store reads.
    pub fn clock(&self) -> (clock: &C)
        ensures
            *clock == self.spec_clock(),
    {
        &self.clock
    }

    /// The place of `peer` in the address book. Only the peers that share
    /// its fingerprint are looked at.
    fn find(&self, peer: &PeerId) -> (found: Option<usize>)
        requires
            indexed(self.address_book@, self.places@),
        ensures
            match found {
                Some(i) => i < self.address_book@.len() && self.address_book@[i as int].peer@
                    == peer@,
                None => !listed(self.address_book@, peer@),
            },
    {
        let print = fingerprint(peer.as_bytes());
        match self.places.get(&print) {
            Some(candidates) => {
                let mut k: usize = 0;
                while k < candidates.len()
                    invariant
                        k <= candidates@.len(),
                        indexed(self.address_book@, self.places@),
                        self.places@.dom().contains(print),
                        self.places@[print] == *candidates,
                        forall|j: int|
                            0 <= j < k ==> self.address_book@[(#[trigger] candidates@[j]) as int].peer@
                                != peer@,
                    decreases candidates@.len() - k,
                {
                    let i = candidates[k];
                    if self.address_book[i].peer == *peer {
                        return Some(i);
                    }
                    k = k + 1;
                }
                proof {
                    if listed(self.address_book@, peer@) {
                        let i = slot(self.address_book@, peer@);
                        assert(i < self.address_book.len());
                        let place = i as usize;
                        assert(self.address_book@[place as int].peer@ == peer@);
                        assert(candidates@.contains(place));
                        let j = choose|j: int| 0 <= j < candidates@.len() && candidates@[j] == place;
                        assert(self.address_book@[candidates@[j] as int].peer@ != peer@);
                    }
                }
                None
            },
            None => None,
        }
    }

    /// Lists the last place of the address book under the fingerprint of
    /// its peer.
    fn list_last_place(&mut self)
        requires
            old(self).address_book@.len() > 0,
            indexed(old(self).address_book@.drop_last(), old(self).places@),
        ensures
            final(self).address_book == old(self).address_book,
            final(self).config == old(self).config,
            final(self).clock == old(self).clock,
            indexed(final(self).address_book@, final(self).places@),
    {
        let place = self.address_book.len() - 1;
        let print = fingerprint(self.address_book[place].peer.as_bytes());
        let ghost before = self.places@;
        let mut listed_places = match self.places.remove(&print) {
            Some(places) => places,
            None => Vec::new(),
        };
        let ghost shorter = listed_places@;
        listed_places.push(place);
        self.places.insert(print, listed_places);
        proof {
            let entries = self.address_book@;
            let after = self.places@;
            assert(after.dom().contains(print));
            assert(after[print]@ == shorter.push(place));
            assert(after[print]@[shorter.len() as int] == place);
            assert forall|i: int| 0 <= i < entries.len() implies {
                &&& after.dom().contains(fingerprint_of((#[trigger] entries[i]).peer@))
                &&& after[fingerprint_of(entries[i].peer@)]@.contains(i as usize)
            } by {
                if i < entries.len() - 1 {
                    assert(entries.drop_last()[i] == entries[i]);
                    let own = fingerprint_of(entries[i].peer@);
                    if own == print {
                        let k = shorter.index_of(i as usize);
                        assert(after[print]@[k] == i as usize);
                    }
                }
            }
            assert forall|other: u64, k: int|
                after.dom().contains(other) && 0 <= k < after[other]@.len() implies (
            #[trigger] after[other]@[k]) < entries.len() by {
                if other == print {
                    if k < shorter.len() {
                        assert(after[print]@[k] == shorter[k]);
                        if before.dom().contains(print) {
                            assert(before[print]@[k] < entries.drop_last().len());
                        }
                    }
                } else {
                    assert(before[other]@[k] < entries.drop_last().len());
                }
            }
        }
    }

    /// Notes that `address` was seen for `peer` at `now`, and says whether
    /// that is new knowledge.
    pub fn update_address_at(
        &mut self,
        peer: &PeerId,
        address: &Address,
        source: AddressSource,
        should_expire: bool,
        now: u64,
    ) -> (added: bool)
        requires
            old(self).wf(),
        ensures
            final(self).wf(),
            final(self).record_capacity() == old(self).record_capacity(),
            final(self).record_ttl() == old(self).record_ttl(),
            final(self).spec_clock() == old(self).spec_clock(),
            added == !knows(old(self)@, peer@, address@),
            final(self)@ == book_updated(
                old(self)@,
                old(self).record_capacity(),
                peer@,
                address@,
                source,
                should_expire,
                now,
            ),
    {
        let ghost before = self.address_book@;
        match self.find(peer) {
            Some(i) => {
                proof {
                    lemma_slot(before, i as int);
                }
                let record = &mut self.address_book[i].record;
                let added = record.update_address(address, source, should_expire, now);
                proof {
                    lemma_book_replaced(before, self.address_book@, i as int);
                }
                added
            },
            None => {
                let mut new_record = PeerAddressRecord::new(self.config.record_capacity());
                new_record.update_address(address, source, should_expire, now);
                self.address_book.push(PeerEntry { peer: peer.clone(), record: new_record });
                proof {
                    assert(self.address_book@.drop_last() =~= before);
                    lemma_book_pushed(before, self.address_book@);
                }
                self.list_last_place();
                true
            },
        }
    }

    /// Reacts to a fact that the network stack has observed at `now`, and
    /// names the peer of which something new is known, if there is one.
    pub fn on_swarm_event_at(&mut self, event: &LifecycleEvent, now: u64) -> (notification: Option<
        Event,
    >)
        requires
            old(self).wf(),
        ensures
            final(self).wf(),
            final(self).record_capacity() == old(self).record_capacity(),
            final(self).record_ttl() == old(self).record_ttl(),
            final(self).spec_clock() == old(self).spec_clock(),
            tells(notification, changes_record_of(old(self)@, *event)),
            final(self)@ == book_after(old(self)@, old(self).record_capacity(), *event, now),
    {
        match event {
            LifecycleEvent::NewExternalAddrOfPeer { peer_id, addr } => {
                if self.update_address_at(peer_id, addr, AddressSource::Behaviour, true, now) {
                    return Some(Event::RecordUpdated(peer_id.clone()));
                }
                None
            },
            LifecycleEvent::ConnectionEstablished { peer_id, failed_addresses, remote_address } => {
                let ghost before = self@;
                let ghost failed = address_views(failed_addresses@);
                let mut is_record_updated = false;
                let mut k: usize = 0;
                proof {
                    self.lemma_bounded();
                }
                while k < failed_addresses.len()
                    invariant
                        k <= failed_addresses@.len(),
                        failed == address_views(failed_addresses@),
                        before == old(self)@,
                        bounded(before, old(self).record_capacity()),
                        self.wf(),
                        self.record_capacity() == old(self).record_capacity(),
                        self.record_ttl() == old(self).record_ttl(),
                        self.spec_clock() == old(self).spec_clock(),
                        self@ == book_removed_all(before, peer_id@, failed.take(k as int)),
                        is_record_updated == knows_any(before, peer_id@, failed.take(k as int)),
                    decreases failed_addresses@.len() - k,
                {
                    let was_known = self.remove_address(peer_id, &failed_addresses[k]);
                    proof {
                        let seen = failed.take(k as int);
                        assert(failed.take(k + 1) =~= seen.push(failed[k as int]));
                        assert(seen.push(failed[k as int]).drop_last() =~= seen);
                        lemma_book_removed_all(
                            before,
                            old(self).record_capacity(),
                            peer_id@,
                            seen,
                        );
                        lemma_knows_any_push(before, peer_id@, seen, failed[k as int]);
                    }
                    is_record_updated = is_record_updated || was_known;
                    k = k + 1;
                }
                proof {
                    assert(failed.take(k as int) =~= failed);
                    lemma_book_removed_all(before, old(self).record_capacity(), peer_id@, failed);
                    if failed.contains(remote_address@) {
                        assert(failed[failed.index_of(remote_address@)] == remote_address@);
                    }
                }
                let added = self.update_address_at(
                    peer_id,
                    remote_address,
                    AddressSource::DirectConnection,
                    false,
                    now,
                );
                is_record_updated = is_record_updated || added;
                if is_record_updated {
                    return Some(Event::RecordUpdated(peer_id.clone()));
                }
                None
            },
            LifecycleEvent::Other => None,
        }
    }

    /// The records of `peer`, from the least recently used address to the
    /// most recently used one; `None` for a peer that is not tracked.
    pub fn address_records_of_peer(&self, peer: &PeerId) -> (records: Option<Vec<AddressRecord>>)
        requires
            self.wf(),
        ensures
            records is Some <==> self@.dom().contains(peer@),
            records matches Some(list) ==> {
                &&& list@.len() == self@[peer@].len()
                &&& forall|i: int| 0 <= i < list@.len() ==> (#[trigger] list@[i])@ == self@[peer@][i]
            },
    {
        match self.find(peer) {
            Some(i) => {
                proof {
                    lemma_slot(self.address_book@, i as int);
                }
                Some(self.address_book[i].record.records())
            },
            None => None,
        }
    }
}

impl MemoryStore<SystemClock> {
    /// An empty store that reads the time from the machine's clock.
    pub fn new(config: Config) -> (store: Self)
        requires
            config.wf(),
        ensures
            store.wf(),
            store@ == Map::<Seq<u8>, Seq<Entry>>::empty(),
            store.record_capacity() == config.capacity(),
            store.record_ttl() == config.ttl(),
    {
        MemoryStore::with_clock(config, SystemClock::new())
    }
}

impl Default for MemoryStore<SystemClock> {
    /// An empty store with the default configuration.
    fn default() -> (store: Self)
        ensures
            store.wf(),
            store@ == Map::<Seq<u8>, Seq<Entry>>::empty(),
            store.record_capacity() == 8,
            store.record_ttl() == 600_000_000_000,
    {
        MemoryStore::new(Config::default())
    }
}

impl<C: Clock> Store for MemoryStore<C> {
    /// The store in memory has nothing to tell on its own account.
    type FromStore = ();

    open spec fn inv(&self) -> bool {
        self.wf()
    }

    open spec fn book(&self) -> Book {
        self@
    }

    open spec fn capacity(&self) -> nat {
        self.record_capacity()
    }

    open spec fn ttl(&self) -> u64 {
        self.record_ttl()
    }

    /// A poll never hands out anything, and changes nothing.
    open spec fn polled(&self, after: &Self, event: Option<()>) -> bool {
        event is None && *after == *self
    }

    proof fn lemma_bounded(&self) {
        let entries = self.address_book@;
        assert forall|peer: Seq<u8>| #[trigger] self@.dom().contains(peer) implies self@[peer].len()
            <= self.record_capacity() && record::distinct(self@[peer]) by {
            lemma_slot(entries, slot(entries, peer));
        }
    }

    fn update_address(
        &mut self,
        peer: &PeerId,
        address: &Address,
        source: AddressSource,
        should_expire: bool,
    ) -> (added: bool)
        ensures
            final(self).spec_clock() == old(self).spec_clock(),
    {
        let now = self.clock.now();
        let added = self.update_address_at(peer, address, source, should_expire, now);
        assert(self.book() == book_updated(
            old(self).book(),
            old(self).capacity(),
            peer@,
            address@,
            source,
            should_expire,
            now,
        ));
        added
    }

    fn remove_address(&mut self, peer: &PeerId, address: &Address) -> (was_known: bool)
        ensures
            final(self).spec_clock() == old(self).spec_clock(),
    {
        let ghost before = self.address_book@;
        match self.find(peer) {
            Some(i) => {
                proof {
                    lemma_slot(before, i as int);
                }
                let record = &mut self.address_book[i].record;
                let was_known = record.remove_address(address);
                proof {
                    lemma_book_replaced(before, self.address_book@, i as int);
                }
                was_known
            },
            None => false,
        }
    }

    fn on_swarm_event(&mut self, event: &LifecycleEvent) -> (notification: Option<Event>)
        ensures
            final(self).spec_clock() == old(self).spec_clock(),
    {
        let now = self.clock.now();
        let notification = self.on_swarm_event_at(event, now);
        assert(self.book() == book_after(old(self).book(), old(self).capacity(), *event, now));
        notification
    }

    fn addresses_of_peer(&self, peer: &PeerId) -> (addresses: Option<Vec<Address>>) {
        match self.address_records_of_peer(peer) {
            Some(records) => {
                let mut addresses: Vec<Address> = Vec::new();
                let mut i: usize = 0;
                while i < records.len()
                    invariant
                        i <= records@.len(),
                        addresses@.len() == i,
                        forall|j: int|
                            0 <= j < i ==> (#[trigger] addresses@[j])@ == records@[j]@.0,
                    decreases records@.len() - i,
                {
                    addresses.push(records[i].address.clone());
                    i = i + 1;
                }
                Some(addresses)
            },
            None => None,
        }
    }

    fn check_ttl(&mut self, now: u64)
        ensures
            final(self).spec_clock() == old(self).spec_clock(),
    {
        let ghost before = self.address_book@;
        let ttl = self.config.record_ttl();
        let mut i: usize = 0;
        while i < self.address_book.len()
            invariant
                i <= self.address_book@.len(),
                self.address_book@.len() == before.len(),
                before == old(self).address_book@,
                old(self).wf(),
                self.config == old(self).config,
                self.clock == old(self).clock,
                self.places == old(self).places,
                ttl == self.config.ttl(),
                forall|j: int|
                    0 <= j < before.len() ==> {
                        &&& (#[trigger] self.address_book@[j]).peer@ == before[j].peer@
                        &&& self.address_book@[j].record.wf()
                        &&& self.address_book@[j].record.capacity() == self.config.capacity()
                    },
                forall|j: int|
                    0 <= j < i ==> (#[trigger] self.address_book@[j]).record@ == unexpired(
                        before[j].record@,
                        now,
                        ttl,
                    ),
                forall|j: int|
                    i <= j < before.len() ==> (#[trigger] self.address_book@[j]).record@
                        == before[j].record@,
            decreases self.address_book@.len() - i,
        {
            let record = &mut self.address_book[i].record;
            record.check_ttl(now, ttl);
            i = i + 1;
        }
        proof {
            lemma_book_unexpired(before, self.address_book@, now, ttl);
        }
    }

    fn poll(&mut self) -> (event: Option<()>) {
        None
    }
}

impl<C: Clock> Behaviour<MemoryStore<C>> {
    /// All that is stored of the addresses of `peer`, from the least
    /// recently used address to the most recently used one; `None` for a
    /// peer that is not tracked.
    pub fn address_record_of_peer(&self, peer: &PeerId) -> (records: Option<Vec<AddressRecord>>)
        requires
            self.inv(),
        ensures
            records is Some <==> self.spec_store()@.dom().contains(peer@),
            records matches Some(list) ==> {
                &&& list@.len() == self.spec_store()@[peer@].len()
                &&& forall|i: int|
                    0 <= i < list@.len() ==> (#[trigger] list@[i])@ == self.spec_store()@[peer@][i]
            },
    {
        self.store().address_records_of_peer(peer)
    }
}

/// A book whose records each lost their stale entries is the book without
/// its stale entries.
proof fn lemma_book_unexpired(before: Seq<PeerEntry>, after: Seq<PeerEntry>, now: u64, ttl: u64)
    requires
        one_entry_each(before),
        after.len() == before.len(),
        forall|j: int| 0 <= j < after.len() ==> (#[trigger] after[j]).peer@ == before[j].peer@,
        forall|j: int|
            0 <= j < after.len() ==> (#[trigger] after[j]).record@ == unexpired(
                before[j].record@,
                now,
                ttl,
            ),
    ensures
        one_entry_each(after),
        book_of(after) == book_unexpired(book_of(before), now, ttl),
{
    assert(one_entry_each(after));
    let target = book_unexpired(book_of(before), now, ttl);
    assert forall|peer: Seq<u8>| book_of(after).dom().contains(peer) <==> target.dom().contains(
        peer,
    ) by {
        if listed(before, peer) {
            let j = slot(before, peer);
            assert(after[j].peer@ == peer);
        }
    }
    assert forall|peer: Seq<u8>| book_of(after).dom().contains(peer) implies book_of(after)[peer]
        == target[peer] by {
        let j = slot(after, peer);
        lemma_slot(after, j);
        lemma_slot(before, j);
    }
}

/// A book whose entry at `i` got a new record maps that peer to the new
/// record, and every other peer as before.
proof fn lemma_book_replaced(before: Seq<PeerEntry>, after: Seq<PeerEntry>, i: int)
    requires
        one_entry_each(before),
        0 <= i < before.len(),
        after.len() == before.len(),
        forall|j: int| 0 <= j < after.len() ==> (#[trigger] after[j]).peer@ == before[j].peer@,
        forall|j: int|
            0 <= j < after.len() && j != i ==> (#[trigger] after[j]).record == before[j].record,
    ensures
        one_entry_each(after),
        book_of(after) == book_of(before).insert(before[i].peer@, after[i].record@),
{
    assert(one_entry_each(after));
    let target = book_of(before).insert(before[i].peer@, after[i].record@);
    assert forall|peer: Seq<u8>| book_of(after).dom().contains(peer) <==> target.dom().contains(
        peer,
    ) by {
        if listed(before, peer) {
            let j = slot(before, peer);
            assert(after[j].peer@ == peer);
        }
    }
    assert forall|peer: Seq<u8>| book_of(after).dom().contains(peer) implies book_of(after)[peer]
        == target[peer] by {
        let j = slot(after, peer);
        lemma_slot(after, j);
        lemma_slot(before, j);
    }
}

/// A book with one more entry, of a peer that was not listed, maps that peer
/// to the record of the entry, and every other peer as before.
proof fn lemma_book_pushed(before: Seq<PeerEntry>, after: Seq<PeerEntry>)
    requires
        one_entry_each(before),
        after.len() == before.len() + 1,
        after.drop_last() == before,
        !listed(before, after.last().peer@),
    ensures
        one_entry_each(after),
        book_of(after) == book_of(before).insert(after.last().peer@, after.last().record@),
{
    let n = before.len() as int;
    assert(forall|j: int| 0 <= j < n ==> after[j] == #[trigger] before[j]);
    assert forall|a: int, b: int| 0 <= a < b < after.len() implies (#[trigger] after[a]).peer@ != (
    #[trigger] after[b]).peer@ by {
        if b < n {
            assert(after[b] == before[b]);
        } else {
            assert(before[a].peer@ != after.last().peer@);
        }
    }
    let target = book_of(before).insert(after.last().peer@, after.last().record@);
    assert forall|peer: Seq<u8>| book_of(after).dom().contains(peer) <==> target.dom().contains(
        peer,
    ) by {
        if listed(after, peer) {
            let j = slot(after, peer);
            if j < n {
                assert(before[j].peer@ == peer);
            }
        }
    }
    assert forall|peer: Seq<u8>| book_of(after).dom().contains(peer) implies book_of(after)[peer]
        == target[peer] by {
        let j = slot(after, peer);
        lemma_slot(after, j);
        if j < n {
            lemma_slot(before, j);
        }
    }
}

} // verus!
