//! What is known of one peer: a bounded collection of its addresses, kept in
//! the order of their last use.

use crate::cache::cache_entries;
use crate::cache::cache_get_mut;
use crate::cache::cache_get_or_insert;
use crate::cache::cache_items;
use crate::cache::cache_limit;
use crate::cache::cache_new;
use crate::cache::cache_pop;
use crate::cache::has_key;
use crate::cache::key_index;
use crate::cache::Entry;
use crate::memory_store;
use crate::store::AddressSource;
use crate::types::Address;
use lru::LruCache;
use vstd::prelude::*;

verus! {

/// What is known of one address of one peer.
#[derive(Clone, Copy, Debug, PartialEq, Eq, Structural)]
pub struct AddressRecord {
    /// When the address was last seen, on the clock of the store.
    pub last_seen: u64,
    /// How the address was first learned.
    pub source: AddressSource,
    /// Whether the address is dropped once it has not been seen for too long.
    pub should_expire: bool,
}

impl AddressRecord {
    /// The record of an address that is seen for the first time at `now`.
    pub fn new(source: AddressSource, should_expire: bool, now: u64) -> (record: Self)
        ensures
            record == (AddressRecord { last_seen: now, source, should_expire }),
    {
        AddressRecord { last_seen: now, source, should_expire }
    }

    /// Notes that the address was seen again at `now`. How it was first
    /// learned, and whether it expires, stay as they were.
    pub fn update_last_seen(&mut self, now: u64)
        ensures
            *final(self) == (AddressRecord { last_seen: now, ..*old(self) }),
    {
        self.last_seen = now;
    }

    /// An address is stale at `now` when it may expire and was last seen more
    /// than `ttl` before `now`.
    pub open spec fn stale(&self, now: u64, ttl: u64) -> bool {
        self.should_expire && now - self.last_seen > ttl
    }

    /// Whether the address is stale at `now`.
    pub fn is_expired(&self, now: u64, ttl: u64) -> (expired: bool)
        ensures
            expired == self.stale(now, ttl),
    {
        self.should_expire && now > self.last_seen && now - self.last_seen > ttl
    }
}

/// No two entries are of the same address.
pub open spec fn distinct(entries: Seq<Entry>) -> bool {
    forall|i: int, j: int|
        0 <= i < j < entries.len() ==> (#[trigger] entries[i]).0 != (#[trigger] entries[j]).0
}

/// The entries after `address` was seen at `now`.
///
/// A known address gets the new time and becomes the most recently used
/// entry; the rest of its record stays. An unknown one is added as the most
/// recently used entry, after the least recently used entry was dropped if
/// `capacity` was reached.
pub open spec fn updated(
    entries: Seq<Entry>,
    capacity: nat,
    address: Seq<u8>,
    source: AddressSource,
    should_expire: bool,
    now: u64,
) -> Seq<Entry> {
    if has_key(entries, address) {
        let i = key_index(entries, address);
        entries.remove(i).push((address, AddressRecord { last_seen: now, ..entries[i].1 }))
    } else if entries.len() >= capacity {
        entries.drop_first().push((address, AddressRecord { last_seen: now, source, should_expire }))
    } else {
        entries.push((address, AddressRecord { last_seen: now, source, should_expire }))
    }
}

/// The entries without the one of `address`.
pub open spec fn removed(entries: Seq<Entry>, address: Seq<u8>) -> Seq<Entry> {
    if has_key(entries, address) {
        entries.remove(key_index(entries, address))
    } else {
        entries
    }
}

/// Tells the entries that are not stale at `now` from those that are.
pub open spec fn fresh(now: u64, ttl: u64) -> spec_fn(Entry) -> bool {
    |entry: Entry| !entry.1.stale(now, ttl)
}

/// The entries that are not stale at `now`, in their order.
pub open spec fn unexpired(entries: Seq<Entry>, now: u64, ttl: u64) -> Seq<Entry> {
    entries.filter(fresh(now, ttl))
}

/// In entries of distinct addresses, an address is found where it stands.
pub proof fn lemma_key_index(entries: Seq<Entry>, i: int)
    requires
        distinct(entries),
        0 <= i < entries.len(),
    ensures
        has_key(entries, entries[i].0),
        key_index(entries, entries[i].0) == i,
{
}

/// Taking an entry out keeps the others distinct, and takes its address out.
pub proof fn lemma_remove(entries: Seq<Entry>, i: int)
    requires
        distinct(entries),
        0 <= i < entries.len(),
    ensures
        distinct(entries.remove(i)),
        entries.remove(i).len() == entries.len() - 1,
        forall|key: Seq<u8>|
            has_key(entries.remove(i), key) <==> has_key(entries, key) && key != entries[i].0,
{
    let rest = entries.remove(i);
    assert(distinct(rest));
    assert forall|key: Seq<u8>| has_key(rest, key) <==> has_key(entries, key) && key
        != entries[i].0 by {
        if has_key(rest, key) {
            assert(rest[key_index(rest, key)].0 == key);
        }
        if has_key(entries, key) && key != entries[i].0 {
            let at = key_index(entries, key);
            assert(rest[if at < i { at } else { at - 1 }].0 == key);
        }
    }
}

/// Adding an entry of a new address keeps the entries distinct.
pub proof fn lemma_push(entries: Seq<Entry>, entry: Entry)
    requires
        distinct(entries),
        !has_key(entries, entry.0),
    ensures
        distinct(entries.push(entry)),
        forall|key: Seq<u8>|
            has_key(entries.push(entry), key) <==> has_key(entries, key) || key == entry.0,
{
    let more = entries.push(entry);
    assert(distinct(more));
    assert forall|key: Seq<u8>| has_key(more, key) <==> has_key(entries, key) || key
        == entry.0 by {
        if has_key(entries, key) {
            assert(more[key_index(entries, key)].0 == key);
        }
        if key == entry.0 {
            assert(more[entries.len() as int] == entry);
        }
    }
}

/// Seeing an address never breaks a record: no address is kept twice and
/// the capacity is respected. The address is known afterwards, and is the
/// most recently used one. A known address keeps its place in the count, its
/// source and its flag; only an address that was not known takes the source
/// and the flag that it is seen with.
pub proof fn lemma_updated(
    entries: Seq<Entry>,
    capacity: nat,
    address: Seq<u8>,
    source: AddressSource,
    should_expire: bool,
    now: u64,
)
    requires
        capacity >= 1,
        entries.len() <= capacity,
        distinct(entries),
    ensures
        ({
            let after = updated(entries, capacity, address, source, should_expire, now);
            &&& distinct(after)
            &&& 1 <= after.len() <= capacity
            &&& has_key(after, address)
            &&& after.last().0 == address
            &&& after.last().1.last_seen == now
            &&& has_key(entries, address) ==> {
                &&& after.len() == entries.len()
                &&& after.last().1.source == entries[key_index(entries, address)].1.source
                &&& after.last().1.should_expire == entries[key_index(
                    entries,
                    address,
                )].1.should_expire
            }
            &&& !has_key(entries, address) ==> {
                &&& after.last().1.source == source
                &&& after.last().1.should_expire == should_expire
            }
        }),
{
    if has_key(entries, address) {
        let i = key_index(entries, address);
        lemma_remove(entries, i);
        lemma_push(entries.remove(i), (address, AddressRecord { last_seen: now, ..entries[i].1 }));
    } else {
        let entry = (address, AddressRecord { last_seen: now, source, should_expire });
        if entries.len() >= capacity {
            lemma_remove(entries, 0);
            lemma_push(entries.drop_first(), entry);
        } else {
            lemma_push(entries, entry);
        }
    }
}

/// Seeing a new address in a full record drops the least recently used
/// address, and no other: the one that was second in line is first then.
pub proof fn lemma_updated_full(
    entries: Seq<Entry>,
    capacity: nat,
    address: Seq<u8>,
    source: AddressSource,
    should_expire: bool,
    now: u64,
)
    requires
        capacity >= 2,
        entries.len() == capacity,
        distinct(entries),
        !has_key(entries, address),
    ensures
        ({
            let after = updated(entries, capacity, address, source, should_expire, now);
            &&& !has_key(after, entries[0].0)
            &&& after[0] == entries[1]
            &&& forall|i: int| 1 <= i < entries.len() ==> has_key(after, (#[trigger] entries[i]).0)
        }),
{
    let after = updated(entries, capacity, address, source, should_expire, now);
    let entry = (address, AddressRecord { last_seen: now, source, should_expire });
    lemma_key_index(entries, 0);
    lemma_remove(entries, 0);
    lemma_push(entries.drop_first(), entry);
    assert forall|i: int| 1 <= i < entries.len() implies has_key(after, (#[trigger] entries[i]).0) by {
        lemma_key_index(entries, i);
    }
}

/// Forgetting an address takes that address out and leaves the others.
pub proof fn lemma_removed(entries: Seq<Entry>, address: Seq<u8>)
    requires
        distinct(entries),
    ensures
        distinct(removed(entries, address)),
        removed(entries, address).len() <= entries.len(),
        !has_key(removed(entries, address), address),
        forall|other: Seq<u8>|
            other != address ==> (has_key(removed(entries, address), other) <==> has_key(
                entries,
                other,
            )),
{
    if has_key(entries, address) {
        lemma_remove(entries, key_index(entries, address));
    }
}

/// Expiry drops exactly the stale addresses. An address that does not
/// expire stays, however old it is; one that expires stays as long as it
/// was seen within the time to live. What stays is not changed.
pub proof fn lemma_unexpired(entries: Seq<Entry>, now: u64, ttl: u64)
    requires
        distinct(entries),
    ensures
        distinct(unexpired(entries, now, ttl)),
        unexpired(entries, now, ttl).len() <= entries.len(),
        forall|i: int|
            0 <= i < entries.len() ==> (has_key(
                unexpired(entries, now, ttl),
                (#[trigger] entries[i]).0,
            ) <==> !entries[i].1.stale(now, ttl)),
        forall|j: int|
            0 <= j < unexpired(entries, now, ttl).len() ==> {
                let entry = #[trigger] unexpired(entries, now, ttl)[j];
                &&& has_key(entries, entry.0)
                &&& entries[key_index(entries, entry.0)] == entry
            },
    decreases entries.len(),
{
    reveal(Seq::filter);
    let kept = unexpired(entries, now, ttl);
    if entries.len() > 0 {
        let front = entries.drop_last();
        let last = entries.last();
        let n = front.len() as int;
        let kept_front = unexpired(front, now, ttl);
        assert(distinct(front));
        lemma_unexpired(front, now, ttl);
        assert(!has_key(front, last.0));
        assert(!has_key(kept_front, last.0));
        if !last.1.stale(now, ttl) {
            lemma_push(kept_front, last);
        }
        assert forall|i: int| 0 <= i < entries.len() implies (has_key(
            kept,
            (#[trigger] entries[i]).0,
        ) <==> !entries[i].1.stale(now, ttl)) by {
            if i < n {
                assert(has_key(kept_front, front[i].0) <==> !front[i].1.stale(now, ttl));
            }
        }
        assert forall|j: int| 0 <= j < kept.len() implies ({
            let entry = #[trigger] kept[j];
            &&& has_key(entries, entry.0)
            &&& entries[key_index(entries, entry.0)] == entry
        }) by {
            if j < kept_front.len() {
                lemma_key_index(entries, key_index(front, kept[j].0));
            } else {
                lemma_key_index(entries, n);
            }
        }
    }
}

/// The addresses of one peer with what is known of each: at most a fixed
/// number of them, from the least recently used to the most recently used.
pub struct PeerAddressRecord {
    /// Drops the least recently used address when a new one finds it full.
    addresses: LruCache<Vec<u8>, AddressRecord>,
}

impl View for PeerAddressRecord {
    type V = Seq<Entry>;

    /// The entries, from the least recently used to the most recently used.
    closed spec fn view(&self) -> Seq<Entry> {
        cache_entries(self.addresses)
    }
}

impl PeerAddressRecord {
    /// The number of addresses that are kept at most.
    pub closed spec fn capacity(&self) -> nat {
        cache_limit(self.addresses)
    }

    /// The capacity is positive and respected, and no address is kept twice.
    pub open spec fn wf(&self) -> bool {
        &&& self.capacity() >= 1
        &&& self@.len() <= self.capacity()
        &&& distinct(self@)
    }

    /// An empty collection that keeps at most `capacity` addresses.
    pub fn new(capacity: usize) -> (record: Self)
        requires
            capacity > 0,
        ensures
            record.wf(),
            record@ == Seq::<Entry>::empty(),
            record.capacity() == capacity,
    {
        PeerAddressRecord { addresses: cache_new(capacity) }
    }

    /// All records, from the least recently used address to the most
    /// recently used one.
    pub fn records(&self) -> (records: Vec<memory_store::AddressRecord>)
        ensures
            records@.len() == self@.len(),
            forall|i: int| 0 <= i < records@.len() ==> (#[trigger] records@[i])@ == self@[i],
    {
        let items = cache_items(&self.addresses);
        let mut records: Vec<memory_store::AddressRecord> = Vec::new();
        let mut left: usize = items.len();
        while left > 0
            invariant
                left <= items@.len(),
                items@.len() == self@.len(),
                records@.len() == items@.len() - left,
                forall|i: int|
                    0 <= i < items@.len() ==> {
                        &&& (#[trigger] items@[i]).0@ == self@[items@.len() - 1 - i].0
                        &&& items@[i].1 == self@[items@.len() - 1 - i].1
                    },
                forall|i: int| 0 <= i < records@.len() ==> (#[trigger] records@[i])@ == self@[i],
            decreases left,
        {
            left = left - 1;
            let item = &items[left];
            records.push(
                memory_store::AddressRecord::new(Address::from_bytes(item.0.clone()), item.1),
            );
        }
        records
    }

    /// Notes that `address` was seen at `now`, and says whether it was new.
    ///
    /// A known address is only refreshed: it becomes the most recently used
    /// one, and `source` and `should_expire` are not looked at.
    pub fn update_address(
        &mut self,
        address: &Address,
        source: AddressSource,
        should_expire: bool,
        now: u64,
    ) -> (added: bool)
        requires
            old(self).wf(),
        ensures
            final(self).wf(),
            final(self).capacity() == old(self).capacity(),
            added == !has_key(old(self)@, address@),
            final(self)@ == updated(
                old(self)@,
                old(self).capacity(),
                address@,
                source,
                should_expire,
                now,
            ),
    {
        proof {
            lemma_updated(self@, self.capacity(), address@, source, should_expire, now);
        }
        if let Some(record) = cache_get_mut(&mut self.addresses, address.as_bytes()) {
            record.update_last_seen(now);
            return false;
        }
        cache_get_or_insert(
            &mut self.addresses,
            address.as_bytes().clone(),
            source,
            should_expire,
            now,
        );
        true
    }

    /// Forgets `address`, and says whether it was known.
    pub fn remove_address(&mut self, address: &Address) -> (was_known: bool)
        requires
            old(self).wf(),
        ensures
            final(self).wf(),
            final(self).capacity() == old(self).capacity(),
            was_known == has_key(old(self)@, address@),
            final(self)@ == removed(old(self)@, address@),
    {
        proof {
            lemma_removed(self@, address@);
        }
        cache_pop(&mut self.addresses, address.as_bytes()).is_some()
    }

    /// Drops every address that is stale at `now`: one that may expire and
    /// was last seen more than `ttl` ago. The others keep their order.
    pub fn check_ttl(&mut self, now: u64, ttl: u64)
        requires
            old(self).wf(),
        ensures
            final(self).wf(),
            final(self).capacity() == old(self).capacity(),
            final(self)@ == unexpired(old(self)@, now, ttl),
    {
        // The walk goes over a copy, so stale entries can leave while it lasts.
        let items = cache_items(&self.addresses);
        let ghost before = self@;
        let mut left: usize = items.len();
        proof {
            reveal(Seq::filter);
        }
        while left > 0
            invariant
                left <= items@.len(),
                items@.len() == before.len(),
                before == old(self)@,
                distinct(before),
                forall|i: int|
                    0 <= i < items@.len() ==> {
                        &&& (#[trigger] items@[i]).0@ == before[items@.len() - 1 - i].0
                        &&& items@[i].1 == before[items@.len() - 1 - i].1
                    },
                self.wf(),
                self.capacity() == old(self).capacity(),
                self@ == unexpired(before.take(before.len() - left), now, ttl) + before.skip(
                    before.len() - left,
                ),
            decreases left,
        {
            left = left - 1;
            let item = &items[left];
            let ghost i = before.len() - 1 - left;
            let ghost kept = unexpired(before.take(i), now, ttl);
            proof {
                lemma_key_index(self@, kept.len() as int);
                lemma_remove(self@, kept.len() as int);
                assert(before.take(i + 1) =~= before.take(i).push(before[i]));
                before.take(i).lemma_filter_push(before[i], fresh(now, ttl));
            }
            if item.1.is_expired(now, ttl) {
                cache_pop(&mut self.addresses, &item.0);
            }
        }
        proof {
            assert(before.take(before.len() as int) =~= before);
        }
    }
}

} // verus!
