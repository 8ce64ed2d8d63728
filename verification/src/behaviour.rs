//! The adapter between a store and the network stack that drives it.

use crate::store;
use crate::store::book_after;
use crate::store::changes_record_of;
use crate::store::LifecycleEvent;
use crate::store::Store;
use crate::types::Address;
use crate::types::PeerId;
use std::collections::VecDeque;
use vstd::prelude::*;

verus! {

/// What the behaviour reports to the network stack.
#[derive(Debug, Clone)]
pub enum Event<T> {
    /// Something new is known of a peer.
    RecordUpdated {
        /// The peer that has an update.
        peer: PeerId,
    },
    /// An event of the store's own.
    Store(T),
}

/// The notifications that a change of record adds to the queue: one for the
/// peer whose record changed, none where none changed.
pub open spec fn queued<T>(before: Seq<Event<T>>, after: Seq<Event<T>>, peer: Option<Seq<u8>>) -> bool {
    match peer {
        Some(updated) => {
            &&& after.len() == before.len() + 1
            &&& after.drop_last() == before
            &&& after.last() matches Event::RecordUpdated { peer }
            &&& peer@ == updated
        },
        None => after == before,
    }
}

/// Whether one poll, for which the store had `from_store` to tell and the
/// queue was `pending`, hands out `event` and leaves `left` queued.
///
/// An event of the store's own goes out at once, and the queue is not
/// touched. Only where the store had nothing does the oldest report leave
/// the queue; where the queue is empty too, nothing is ready.
pub open spec fn hands_out<T>(
    pending: Seq<Event<T>>,
    from_store: Option<T>,
    event: Option<Event<T>>,
    left: Seq<Event<T>>,
) -> bool {
    match from_store {
        Some(backend_event) => event == Some(Event::Store(backend_event)) && left == pending,
        None => if pending.len() == 0 {
            event is None && left == pending
        } else {
            event == Some(pending[0]) && left == pending.drop_first()
        },
    }
}

/// A behaviour that keeps an address book of peers.
///
/// It hands the addresses of a peer to the dialer, feeds what the network
/// stack observes into its store, and queues what the store has to report
/// until the stack asks for it.
pub struct Behaviour<S: Store> {
    /// The store behind the behaviour.
    store: S,
    /// What is still to be reported, oldest first.
    pending_events: VecDeque<Event<S::FromStore>>,
}

impl<S: Store> Behaviour<S> {
    /// The store behind the behaviour.
    pub closed spec fn spec_store(&self) -> S {
        self.store
    }

    /// What is still to be reported, oldest first.
    pub closed spec fn pending(&self) -> Seq<Event<S::FromStore>> {
        self.pending_events@
    }

    /// The store is sound.
    pub open spec fn inv(&self) -> bool {
        self.spec_store().inv()
    }

    /// A behaviour around `store`, with nothing to report yet.
    pub fn new(store: S) -> (behaviour: Self)
        ensures
            behaviour.spec_store() == store,
            behaviour.pending() == Seq::<Event<S::FromStore>>::empty(),
    {
        Behaviour { store, pending_events: VecDeque::new() }
    }

    /// The addresses of `peer`, from the least recently used to the most
    /// recently used; `None` for a peer that is not tracked.
    pub fn address_of_peer(&self, peer: &PeerId) -> (addresses: Option<Vec<Address>>)
        requires
            self.inv(),
        ensures
            addresses is Some <==> self.spec_store().book().dom().contains(peer@),
            addresses matches Some(list) ==> {
                &&& list@.len() == self.spec_store().book()[peer@].len()
                &&& forall|i: int|
                    0 <= i < list@.len() ==> (#[trigger] list@[i])@
                        == self.spec_store().book()[peer@][i].0
            },
    {
        self.store.addresses_of_peer(peer)
    }

    /// The store, for reading.
    pub fn store(&self) -> (store: &S)
        ensures
            *store == self.spec_store(),
    {
        &self.store
    }

    /// The store, for writing. What the caller leaves in it is the store of
    /// the behaviour afterwards; the queue is not touched.
    pub fn store_mut(&mut self) -> (store: &mut S)
        ensures
            *store == old(self).spec_store(),
            final(self).spec_store() == *final(store),
            final(self).pending() == old(self).pending(),
    {
        &mut self.store
    }

    /// Queues what the store reported.
    fn handle_store_event(&mut self, event: store::Event)
        ensures
            final(self).spec_store() == old(self).spec_store(),
            event matches store::Event::RecordUpdated(updated) && final(self).pending() == old(
                self,
            ).pending().push(Event::RecordUpdated { peer: updated }),
    {
        match event {
            store::Event::RecordUpdated(peer) => self.pending_events.push_back(
                Event::RecordUpdated { peer },
            ),
        }
    }

    /// The addresses to dial when the stack wants to reach `maybe_peer` and
    /// was given none: those that the store holds for the peer. There are
    /// none for a peer that is not tracked, and none where no peer is named.
    pub fn handle_pending_outbound_connection(&self, maybe_peer: Option<PeerId>) -> (candidates:
        Vec<Address>)
        requires
            self.inv(),
        ensures
            match maybe_peer {
                Some(peer) if self.spec_store().book().dom().contains(peer@) => {
                    &&& candidates@.len() == self.spec_store().book()[peer@].len()
                    &&& forall|i: int|
                        0 <= i < candidates@.len() ==> (#[trigger] candidates@[i])@
                            == self.spec_store().book()[peer@][i].0
                },
                _ => candidates@.len() == 0,
            },
    {
        if maybe_peer.is_none() {
            return Vec::new();
        }
        let peer = maybe_peer.unwrap();
        match self.store.addresses_of_peer(&peer) {
            Some(addresses) => addresses,
            None => Vec::new(),
        }
    }

    /// Feeds a fact that the network stack has observed into the store, and
    /// queues the notification where the store has something new to tell.
    pub fn on_swarm_event(&mut self, event: LifecycleEvent)
        requires
            old(self).inv(),
        ensures
            final(self).inv(),
            final(self).spec_store().capacity() == old(self).spec_store().capacity(),
            final(self).spec_store().ttl() == old(self).spec_store().ttl(),
            exists|now: u64|
                final(self).spec_store().book() == #[trigger] book_after(
                    old(self).spec_store().book(),
                    old(self).spec_store().capacity(),
                    event,
                    now,
                ),
            queued(
                old(self).pending(),
                final(self).pending(),
                changes_record_of(old(self).spec_store().book(), event),
            ),
    {
        if let Some(notification) = self.store.on_swarm_event(&event) {
            self.handle_store_event(notification);
            proof {
                assert(self.pending().drop_last() =~= old(self).pending());
            }
        }
    }

    /// Hands out what one poll yields when the store had `from_store` to
    /// tell: that event itself, where there is one, and else the oldest
    /// report of the queue. `None` says that nothing is ready.
    pub fn next_event(&mut self, from_store: Option<S::FromStore>) -> (event: Option<
        Event<S::FromStore>,
    >)
        ensures
            final(self).spec_store() == old(self).spec_store(),
            hands_out(old(self).pending(), from_store, event, final(self).pending()),
    {
        if let Some(backend_event) = from_store {
            return Some(Event::Store(backend_event));
        }
        self.pending_events.pop_front()
    }

    /// Asks the store for an event of its own and hands it out where there
    /// is one; otherwise hands out the oldest report of the queue. At most
    /// one report goes out with each call, none is lost and none goes out
    /// twice; `None` says that nothing is ready.
    pub fn poll(&mut self) -> (event: Option<Event<S::FromStore>>)
        requires
            old(self).inv(),
        ensures
            final(self).inv(),
            final(self).spec_store().capacity() == old(self).spec_store().capacity(),
            final(self).spec_store().ttl() == old(self).spec_store().ttl(),
            exists|from_store: Option<S::FromStore>|
                {
                    &&& #[trigger] old(self).spec_store().polled(
                        &final(self).spec_store(),
                        from_store,
                    )
                    &&& hands_out(old(self).pending(), from_store, event, final(self).pending())
                },
    {
        let from_store = self.store.poll();
        self.next_event(from_store)
    }
}

} // verus!
