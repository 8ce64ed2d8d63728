//! What every storage backend offers, and the vocabulary it is described in.

use crate::cache::has_key;
use crate::cache::Entry;
use crate::cache::key_index;
use crate::record::distinct;
use crate::record::lemma_removed;
use crate::record::lemma_unexpired;
use crate::record::lemma_updated;
use crate::record::removed;
use crate::record::unexpired;
use crate::record::updated;
use crate::types::address_views;
use crate::types::Address;
use crate::types::PeerId;
use vstd::prelude::*;

verus! {

/// How an address was learned.
///
/// It is fixed when the address is first seen and never changes afterwards:
/// it names the way of discovery, not a level of trust.
#[derive(Clone, Copy, Debug, PartialEq, Eq, Structural)]
pub enum AddressSource {
    /// Put in by hand, by an operator or the application.
    Manual,
    /// Reported by the remote peer itself.
    Behaviour,
    /// The address over which a connection was established.
    DirectConnection,
}

/// What a store tells the behaviour that drives it.
#[derive(Debug)]
pub enum Event {
    /// Something new is known of this peer.
    RecordUpdated(PeerId),
}

/// A fact about connectivity that the network stack has observed.
#[derive(Debug)]
pub enum LifecycleEvent {
    /// A peer reported an address of its own.
    NewExternalAddrOfPeer {
        /// The peer that reported.
        peer_id: PeerId,
        /// The address it reported.
        addr: Address,
    },
    /// A connection to a peer was established.
    ConnectionEstablished {
        /// The peer at the other end.
        peer_id: PeerId,
        /// The addresses that were tried in vain before.
        failed_addresses: Vec<Address>,
        /// The address of the peer on the connection that succeeded.
        remote_address: Address,
    },
    /// Anything else; a store does not react to it.
    Other,
}

/// An address book: for each tracked peer, its entries from the least
/// recently used to the most recently used.
pub type Book = Map<Seq<u8>, Seq<Entry>>;

/// The entries of a peer; none for a peer that is not tracked.
pub open spec fn entries_of(book: Book, peer: Seq<u8>) -> Seq<Entry> {
    if book.dom().contains(peer) {
        book[peer]
    } else {
        Seq::empty()
    }
}

/// Whether the book holds this address for this peer.
pub open spec fn knows(book: Book, peer: Seq<u8>, address: Seq<u8>) -> bool {
    book.dom().contains(peer) && has_key(book[peer], address)
}

/// Every tracked peer has at most `capacity` entries, no two of them of the
/// same address.
pub open spec fn bounded(book: Book, capacity: nat) -> bool {
    forall|peer: Seq<u8>| #[trigger]
        book.dom().contains(peer) ==> book[peer].len() <= capacity && distinct(book[peer])
}

/// The book after `address` was seen for `peer` at `now`. A peer that was
/// not tracked is tracked from then on.
pub open spec fn book_updated(
    book: Book,
    capacity: nat,
    peer: Seq<u8>,
    address: Seq<u8>,
    source: AddressSource,
    should_expire: bool,
    now: u64,
) -> Book {
    book.insert(
        peer,
        updated(entries_of(book, peer), capacity, address, source, should_expire, now),
    )
}

/// The book after `address` was forgotten for `peer`. A peer stays tracked
/// when its last address goes.
pub open spec fn book_removed(book: Book, peer: Seq<u8>, address: Seq<u8>) -> Book {
    if book.dom().contains(peer) {
        book.insert(peer, removed(book[peer], address))
    } else {
        book
    }
}

/// The book after each of `addresses` was forgotten for `peer`, one after
/// the other.
pub open spec fn book_removed_all(book: Book, peer: Seq<u8>, addresses: Seq<Seq<u8>>) -> Book
    decreases addresses.len(),
{
    if addresses.len() == 0 {
        book
    } else {
        book_removed(
            book_removed_all(book, peer, addresses.drop_last()),
            peer,
            addresses.last(),
        )
    }
}

/// Whether the book holds one of `addresses` for `peer`.
pub open spec fn knows_any(book: Book, peer: Seq<u8>, addresses: Seq<Seq<u8>>) -> bool {
    exists|k: int| 0 <= k < addresses.len() && knows(book, peer, #[trigger] addresses[k])
}

/// The book after every entry that is stale at `now` was dropped. The same
/// peers are tracked.
pub open spec fn book_unexpired(book: Book, now: u64, ttl: u64) -> Book {
    Map::new(
        |peer: Seq<u8>| book.dom().contains(peer),
        |peer: Seq<u8>| unexpired(book[peer], now, ttl),
    )
}

/// The book after a store has reacted to `event` at `now`.
///
/// An address that a peer reports is seen as one that expires. When a
/// connection is established, the addresses that failed are forgotten
/// first, and the address that succeeded is then seen as one that stays.
pub open spec fn book_after(book: Book, capacity: nat, event: LifecycleEvent, now: u64) -> Book {
    match event {
        LifecycleEvent::NewExternalAddrOfPeer { peer_id, addr } => book_updated(
            book,
            capacity,
            peer_id@,
            addr@,
            AddressSource::Behaviour,
            true,
            now,
        ),
        LifecycleEvent::ConnectionEstablished {
            peer_id,
            failed_addresses,
            remote_address,
        } => book_updated(
            book_removed_all(book, peer_id@, address_views(failed_addresses@)),
            capacity,
            peer_id@,
            remote_address@,
            AddressSource::DirectConnection,
            false,
            now,
        ),
        LifecycleEvent::Other => book,
    }
}

/// Whether an event is about this peer.
pub open spec fn names(event: LifecycleEvent, peer: Seq<u8>) -> bool {
    match event {
        LifecycleEvent::NewExternalAddrOfPeer { peer_id, addr } => peer_id@ == peer,
        LifecycleEvent::ConnectionEstablished { peer_id, failed_addresses, remote_address } => peer_id@
            == peer,
        LifecycleEvent::Other => false,
    }
}

/// The peer whose record an event changes, where it changes one.
pub open spec fn changes_record_of(book: Book, event: LifecycleEvent) -> Option<Seq<u8>> {
    match event {
        LifecycleEvent::NewExternalAddrOfPeer { peer_id, addr } => if knows(
            book,
            peer_id@,
            addr@,
        ) {
            None
        } else {
            Some(peer_id@)
        },
        LifecycleEvent::ConnectionEstablished { peer_id, failed_addresses, remote_address } => if
            knows_any(book, peer_id@, address_views(failed_addresses@)) || !knows(
            book,
            peer_id@,
            remote_address@,
        ) {
            Some(peer_id@)
        } else {
            None
        },
        LifecycleEvent::Other => None,
    }
}

/// What a store tells, against the peer that the model names.
pub open spec fn tells(notification: Option<Event>, peer: Option<Seq<u8>>) -> bool {
    match notification {
        Some(Event::RecordUpdated(updated_peer)) => peer == Some(updated_peer@),
        None => peer is None,
    }
}

/// Nothing is known of a peer that is not tracked: it has no entries, none
/// of its addresses is known, and forgetting one of them changes nothing.
pub proof fn lemma_untracked(book: Book, peer: Seq<u8>, address: Seq<u8>)
    requires
        !book.dom().contains(peer),
    ensures
        entries_of(book, peer) == Seq::<Entry>::empty(),
        !knows(book, peer, address),
        book_removed(book, peer, address) == book,
{
}

/// Seeing an address keeps the bound, touches one peer only and tracks it,
/// and makes the address known: seeing the same address of the same peer
/// again, whenever the next time is, is no new knowledge.
pub proof fn lemma_book_updated(
    book: Book,
    capacity: nat,
    peer: Seq<u8>,
    address: Seq<u8>,
    source: AddressSource,
    should_expire: bool,
    now: u64,
)
    requires
        capacity >= 1,
        bounded(book, capacity),
    ensures
        ({
            let after = book_updated(book, capacity, peer, address, source, should_expire, now);
            &&& bounded(after, capacity)
            &&& after.dom() == book.dom().insert(peer)
            &&& knows(after, peer, address)
            &&& after[peer].last().0 == address
            &&& forall|other: Seq<u8>|
                other != peer ==> entries_of(after, other) == entries_of(book, other)
            &&& forall|other: Seq<u8>|
                other != peer ==> (after.dom().contains(other) <==> book.dom().contains(other))
        }),
{
    assert(distinct(entries_of(book, peer)) && entries_of(book, peer).len() <= capacity);
    lemma_updated(entries_of(book, peer), capacity, address, source, should_expire, now);
    assert(bounded(
        book_updated(book, capacity, peer, address, source, should_expire, now),
        capacity,
    ));
}

/// Expiry keeps the bound and every peer tracked, and drops exactly the
/// stale addresses: one that does not expire stays whatever its age.
pub proof fn lemma_book_unexpired(book: Book, capacity: nat, now: u64, ttl: u64)
    requires
        bounded(book, capacity),
    ensures
        bounded(book_unexpired(book, now, ttl), capacity),
        book_unexpired(book, now, ttl).dom() == book.dom(),
        forall|peer: Seq<u8>, address: Seq<u8>| #[trigger]
            knows(book_unexpired(book, now, ttl), peer, address) <==> knows(book, peer, address)
                && !book[peer][key_index(book[peer], address)].1.stale(now, ttl),
{
    let after = book_unexpired(book, now, ttl);
    assert forall|peer: Seq<u8>| #[trigger]
        after.dom().contains(peer) implies after[peer].len() <= capacity && distinct(
        after[peer],
    ) by {
        lemma_unexpired(book[peer], now, ttl);
    }
    assert forall|peer: Seq<u8>, address: Seq<u8>| #[trigger]
        knows(after, peer, address) <==> knows(book, peer, address) && !book[peer][key_index(
            book[peer],
            address,
        )].1.stale(now, ttl) by {
        if book.dom().contains(peer) {
            lemma_unexpired(book[peer], now, ttl);
        }
    }
}

/// Forgetting an address touches one peer only, keeps every peer tracked,
/// keeps the bound, and takes exactly that address out.
pub proof fn lemma_book_removed(book: Book, capacity: nat, peer: Seq<u8>, address: Seq<u8>)
    requires
        bounded(book, capacity),
    ensures
        bounded(book_removed(book, peer, address), capacity),
        book_removed(book, peer, address).dom() == book.dom(),
        forall|other: Seq<u8>|
            other != peer ==> entries_of(book_removed(book, peer, address), other) == entries_of(
                book,
                other,
            ),
        forall|other: Seq<u8>| #[trigger]
            knows(book_removed(book, peer, address), peer, other) <==> knows(book, peer, other)
                && other != address,
{
    if book.dom().contains(peer) {
        lemma_removed(book[peer], address);
    }
    assert(bounded(book_removed(book, peer, address), capacity));
}

/// Forgetting several addresses, one after the other, takes exactly those
/// addresses out.
pub proof fn lemma_book_removed_all(
    book: Book,
    capacity: nat,
    peer: Seq<u8>,
    addresses: Seq<Seq<u8>>,
)
    requires
        bounded(book, capacity),
    ensures
        bounded(book_removed_all(book, peer, addresses), capacity),
        book_removed_all(book, peer, addresses).dom() == book.dom(),
        forall|other: Seq<u8>|
            other != peer ==> entries_of(book_removed_all(book, peer, addresses), other)
                == entries_of(book, other),
        forall|other: Seq<u8>| #[trigger]
            knows(book_removed_all(book, peer, addresses), peer, other) <==> knows(
                book,
                peer,
                other,
            ) && !addresses.contains(other),
    decreases addresses.len(),
{
    if addresses.len() > 0 {
        let before = book_removed_all(book, peer, addresses.drop_last());
        lemma_book_removed_all(book, capacity, peer, addresses.drop_last());
        lemma_book_removed(before, capacity, peer, addresses.last());
        let after = book_removed_all(book, peer, addresses);
        assert forall|other: Seq<u8>| #[trigger]
            knows(after, peer, other) <==> knows(book, peer, other) && !addresses.contains(
                other,
            ) by {
            if addresses.contains(other) && other != addresses.last() {
                assert(addresses.drop_last()[addresses.index_of(other)] == other);
            }
            if addresses.drop_last().contains(other) {
                assert(addresses[addresses.drop_last().index_of(other)] == other);
            }
        }
    }
}

/// With one more address in the list, one of the list is known exactly if
/// one was known before or the new one is.
pub proof fn lemma_knows_any_push(
    book: Book,
    peer: Seq<u8>,
    addresses: Seq<Seq<u8>>,
    address: Seq<u8>,
)
    ensures
        knows_any(book, peer, addresses.push(address)) <==> knows_any(book, peer, addresses)
            || knows(book, peer, address),
        knows(book, peer, address) && addresses.contains(address) ==> knows_any(
            book,
            peer,
            addresses,
        ),
{
    let more = addresses.push(address);
    if knows_any(book, peer, addresses) {
        let k = choose|k: int|
            0 <= k < addresses.len() && knows(book, peer, #[trigger] addresses[k]);
        assert(knows(book, peer, more[k]));
    }
    if knows(book, peer, address) {
        assert(knows(book, peer, more[addresses.len() as int]));
        if addresses.contains(address) {
            assert(knows(book, peer, addresses[addresses.index_of(address)]));
        }
    }
    if knows_any(book, peer, more) {
        let k = choose|k: int| 0 <= k < more.len() && knows(book, peer, #[trigger] more[k]);
        if k < addresses.len() {
            assert(knows(book, peer, addresses[k]));
        }
    }
}

/// Whatever a store reacts to, the bound holds afterwards, and a peer that
/// the event does not name is tracked afterwards exactly if it was before.
pub proof fn lemma_book_after(book: Book, capacity: nat, event: LifecycleEvent, now: u64)
    requires
        capacity >= 1,
        bounded(book, capacity),
    ensures
        bounded(book_after(book, capacity, event, now), capacity),
        forall|peer: Seq<u8>|
            changes_record_of(book, event) == Some(peer) ==> book_after(
                book,
                capacity,
                event,
                now,
            ).dom().contains(peer),
        forall|peer: Seq<u8>|
            !names(event, peer) ==> (book_after(book, capacity, event, now).dom().contains(peer)
                <==> book.dom().contains(peer)),
        forall|peer: Seq<u8>|
            !names(event, peer) ==> entries_of(book_after(book, capacity, event, now), peer)
                == entries_of(book, peer),
{
    match event {
        LifecycleEvent::NewExternalAddrOfPeer { peer_id, addr } => {
            lemma_book_updated(
                book,
                capacity,
                peer_id@,
                addr@,
                AddressSource::Behaviour,
                true,
                now,
            );
        },
        LifecycleEvent::ConnectionEstablished { peer_id, failed_addresses, remote_address } => {
            let failed = address_views(failed_addresses@);
            lemma_book_removed_all(book, capacity, peer_id@, failed);
            lemma_book_updated(
                book_removed_all(book, peer_id@, failed),
                capacity,
                peer_id@,
                remote_address@,
                AddressSource::DirectConnection,
                false,
                now,
            );
        },
        LifecycleEvent::Other => {},
    }
}

/// A backend that keeps, for each peer, a bounded record of its addresses.
///
/// The behaviour drives a store through these operations only. A store
/// reads the time from a clock of its own whenever it sees an address, so
/// what it holds afterwards is stated for the reading it got, whatever that
/// was.
pub trait Store {
    /// What the backend has to tell on its own account.
    type FromStore;

    /// What the store relies on between calls.
    spec fn inv(&self) -> bool;

    /// The address book that the store holds.
    spec fn book(&self) -> Book;

    /// The number of addresses that are kept of one peer at most.
    spec fn capacity(&self) -> nat;

    /// The age beyond which an address that expires is dropped.
    spec fn ttl(&self) -> u64;

    /// Whether one call of [`Store::poll`] can hand out `event` and leave
    /// the store as `after`.
    spec fn polled(&self, after: &Self, event: Option<Self::FromStore>) -> bool;

    /// In every state of a store, no peer has more addresses than the
    /// capacity, nor one address twice.
    proof fn lemma_bounded(&self)
        requires
            self.inv(),
        ensures
            self.capacity() >= 1,
            bounded(self.book(), self.capacity()),
    ;

    /// Notes that `address` was seen for `peer`, and says whether that is
    /// new knowledge. A peer that was not tracked is tracked from then on.
    fn update_address(
        &mut self,
        peer: &PeerId,
        address: &Address,
        source: AddressSource,
        should_expire: bool,
    ) -> (added: bool)
        requires
            old(self).inv(),
        ensures
            final(self).inv(),
            final(self).capacity() == old(self).capacity(),
            final(self).ttl() == old(self).ttl(),
            added == !knows(old(self).book(), peer@, address@),
            exists|now: u64|
                final(self).book() == #[trigger] book_updated(
                    old(self).book(),
                    old(self).capacity(),
                    peer@,
                    address@,
                    source,
                    should_expire,
                    now,
                ),
    ;

    /// Forgets `address` for `peer`, and says whether it was known. Nothing
    /// happens for a peer that is not tracked.
    fn remove_address(&mut self, peer: &PeerId, address: &Address) -> (was_known: bool)
        requires
            old(self).inv(),
        ensures
            final(self).inv(),
            final(self).capacity() == old(self).capacity(),
            final(self).ttl() == old(self).ttl(),
            was_known == knows(old(self).book(), peer@, address@),
            final(self).book() == book_removed(old(self).book(), peer@, address@),
    ;

    /// Reacts to a fact that the network stack has observed, and names the
    /// peer of which something new is known, if there is one.
    fn on_swarm_event(&mut self, event: &LifecycleEvent) -> (notification: Option<Event>)
        requires
            old(self).inv(),
        ensures
            final(self).inv(),
            final(self).capacity() == old(self).capacity(),
            final(self).ttl() == old(self).ttl(),
            tells(notification, changes_record_of(old(self).book(), *event)),
            exists|now: u64|
                final(self).book() == #[trigger] book_after(
                    old(self).book(),
                    old(self).capacity(),
                    *event,
                    now,
                ),
    ;

    /// The addresses of `peer`, from the least recently used to the most
    /// recently used; `None` for a peer that is not tracked.
    fn addresses_of_peer(&self, peer: &PeerId) -> (addresses: Option<Vec<Address>>)
        requires
            self.inv(),
        ensures
            addresses is Some <==> self.book().dom().contains(peer@),
            addresses matches Some(list) ==> {
                &&& list@.len() == self.book()[peer@].len()
                &&& forall|i: int|
                    0 <= i < list@.len() ==> (#[trigger] list@[i])@ == self.book()[peer@][i].0
            },
    ;

    /// Drops, for every peer, the addresses that are stale at `now`. The
    /// store has no timer: nothing expires unless this is called.
    fn check_ttl(&mut self, now: u64)
        requires
            old(self).inv(),
        ensures
            final(self).inv(),
            final(self).capacity() == old(self).capacity(),
            final(self).ttl() == old(self).ttl(),
            final(self).book() == book_unexpired(old(self).book(), now, old(self).ttl()),
    ;

    /// Hands out one event of the backend's own, if one is ready. What a
    /// backend may hand out, and what that does to it, is for the backend
    /// to say, in [`Store::polled`].
    fn poll(&mut self) -> (event: Option<Self::FromStore>)
        requires
            old(self).inv(),
        ensures
            final(self).inv(),
            final(self).capacity() == old(self).capacity(),
            final(self).ttl() == old(self).ttl(),
            old(self).polled(final(self), event),
    ;
}

} // verus!
