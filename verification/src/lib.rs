//! A bounded, per-peer store of the network addresses that were observed
//! for the peers of an overlay, with the behaviour that plugs it into an
//! event-driven network stack.
//!
//! For every peer the store keeps at most a fixed number of addresses, in the
//! order of their last use: a new address pushes the least recently used one
//! out. Each address remembers how it was learned and when it was last seen,
//! and an address that may expire is dropped once it has not been seen for
//! longer than the time to live. The store never blocks and owns no timer:
//! everything happens inside the calls of whoever drives it.
//!
//! * [`types`]: peers and addresses, as byte strings.
//! * [`clock`]: where a store reads the time.
//! * [`cache`]: the bounded cache behind one peer's record, and what is
//!   taken on trust about it.
//! * [`record`]: one peer's addresses, and the rules of update, removal and
//!   expiry.
//! * [`store`]: what every backend offers, over a model of the address book.
//! * [`memory_store`]: the backend that keeps the address book in memory.
//! * [`behaviour`]: the adapter between a store and the network stack.
//! * [`inbound`]: the answering side of the hole punching handshake, which
//!   reads its candidates from such a store.

pub mod behaviour;
pub mod cache;
pub mod clock;
pub mod inbound;
pub mod memory_store;
pub mod record;
pub mod store;
pub mod types;
