//! The bounded cache that holds one peer's addresses: `lru::LruCache`, and
//! what this crate takes on trust about it.
//!
//! Nothing here is proved. Each item states, over [`cache_entries`] and
//! [`cache_limit`], what the source of `lru` shows.

use crate::record::AddressRecord;
use crate::store::AddressSource;
use lru::LruCache;
use std::num::NonZeroUsize;
use vstd::prelude::*;

verus! {

/// `lru::LruCache`, a cache of bounded size. Verus sees nothing inside it.
#[verifier::external_type_specification]
#[verifier::external_body]
#[verifier::reject_recursive_types(K)]
#[verifier::reject_recursive_types(V)]
#[verifier::reject_recursive_types(S)]
pub struct ExLruCache<K, V, S>(LruCache<K, V, S>);

/// `lru::DefaultHasher`, the hasher that a cache is made with unless it is
/// given another. Verus sees nothing inside it.
#[verifier::external_type_specification]
#[verifier::external_body]
pub struct ExDefaultHasher(lru::DefaultHasher);

/// One entry of a cache: the bytes of an address, and what is known of it.
pub type Entry = (Seq<u8>, AddressRecord);

/// What a cache holds, from the least recently used entry to the most
/// recently used one.
pub uninterp spec fn cache_entries(cache: LruCache<Vec<u8>, AddressRecord>) -> Seq<Entry>;

/// The number of entries that a cache was made to hold at most.
pub uninterp spec fn cache_limit(cache: LruCache<Vec<u8>, AddressRecord>) -> nat;

/// Whether some entry has this key.
pub open spec fn has_key(entries: Seq<Entry>, key: Seq<u8>) -> bool {
    exists|i: int| 0 <= i < entries.len() && (#[trigger] entries[i]).0 == key
}

/// The place of an entry with this key, if there is one.
pub open spec fn key_index(entries: Seq<Entry>, key: Seq<u8>) -> int {
    choose|i: int| 0 <= i < entries.len() && (#[trigger] entries[i]).0 == key
}

/// Calls `LruCache::new`: an empty cache that holds at most `capacity`
/// entries. Zero is no capacity, and is left out.
#[verifier::external_body]
pub(crate) fn cache_new(capacity: usize) -> (cache: LruCache<Vec<u8>, AddressRecord>)
    requires
        capacity > 0,
    ensures
        cache_entries(cache) == Seq::<Entry>::empty(),
        cache_limit(cache) == capacity,
{
    LruCache::new(NonZeroUsize::new(capacity).unwrap())
}

/// Calls `LruCache::get_mut`. Where the key is cached, its entry becomes the
/// most recently used one and its value is handed out for writing: what the
/// caller leaves in it is what the cache holds afterwards. Where the key is
/// not cached, nothing changes.
#[verifier::external_body]
pub(crate) fn cache_get_mut<'a>(
    cache: &'a mut LruCache<Vec<u8>, AddressRecord>,
    key: &Vec<u8>,
) -> (found: Option<&'a mut AddressRecord>)
    ensures
        cache_limit(*final(cache)) == cache_limit(*old(cache)),
        match found {
            Some(record) => {
                let i = key_index(cache_entries(*old(cache)), key@);
                &&& has_key(cache_entries(*old(cache)), key@)
                &&& *record == cache_entries(*old(cache))[i].1
                &&& cache_entries(*final(cache)) == cache_entries(*old(cache)).remove(i).push(
                    (key@, *final(record)),
                )
            },
            None => {
                &&& !has_key(cache_entries(*old(cache)), key@)
                &&& cache_entries(*final(cache)) == cache_entries(*old(cache))
            },
        },
{
    cache.get_mut(key)
}

/// Calls `LruCache::get_or_insert` with a closure that makes the record of
/// an address first seen at `now`. Where the key is cached, its entry
/// becomes the most recently used one and keeps its value; the closure is
/// not run. Where it is not, the new record is added under the key as the
/// most recently used entry; a cache that is full first drops its least
/// recently used entry.
#[verifier::external_body]
pub(crate) fn cache_get_or_insert(
    cache: &mut LruCache<Vec<u8>, AddressRecord>,
    key: Vec<u8>,
    source: AddressSource,
    should_expire: bool,
    now: u64,
)
    ensures
        cache_limit(*final(cache)) == cache_limit(*old(cache)),
        cache_entries(*final(cache)) == {
            let entries = cache_entries(*old(cache));
            let record = AddressRecord { last_seen: now, source, should_expire };
            if has_key(entries, key@) {
                let i = key_index(entries, key@);
                entries.remove(i).push(entries[i])
            } else if entries.len() == cache_limit(*old(cache)) {
                entries.drop_first().push((key@, record))
            } else {
                entries.push((key@, record))
            }
        },
{
    cache.get_or_insert(key, || AddressRecord::new(source, should_expire, now));
}

/// Calls `LruCache::pop`. Where the key is cached, its entry leaves the cache
/// and its value is returned; the other entries keep their order. Where it
/// is not, nothing changes.
#[verifier::external_body]
pub(crate) fn cache_pop(cache: &mut LruCache<Vec<u8>, AddressRecord>, key: &Vec<u8>) -> (removed:
    Option<AddressRecord>)
    ensures
        cache_limit(*final(cache)) == cache_limit(*old(cache)),
        match removed {
            Some(record) => {
                let i = key_index(cache_entries(*old(cache)), key@);
                &&& has_key(cache_entries(*old(cache)), key@)
                &&& record == cache_entries(*old(cache))[i].1
                &&& cache_entries(*final(cache)) == cache_entries(*old(cache)).remove(i)
            },
            None => {
                &&& !has_key(cache_entries(*old(cache)), key@)
                &&& cache_entries(*final(cache)) == cache_entries(*old(cache))
            },
        },
{
    cache.pop(key)
}

/// Calls `LruCache::iter` and copies out what it yields. `iter` walks the
/// cache from the most recently used entry to the least recently used one,
/// so the copies come in the reverse of the order of [`cache_entries`].
#[verifier::external_body]
pub(crate) fn cache_items(cache: &LruCache<Vec<u8>, AddressRecord>) -> (items: Vec<
    (Vec<u8>, AddressRecord),
>)
    ensures
        items@.len() == cache_entries(*cache).len(),
        forall|i: int|
            0 <= i < items@.len() ==> {
                &&& (#[trigger] items@[i]).0@ == cache_entries(*cache)[items@.len() - 1 - i].0
                &&& items@[i].1 == cache_entries(*cache)[items@.len() - 1 - i].1
            },
{
    cache.iter().map(|(key, record)| (key.clone(), *record)).collect()
}

} // verus!
