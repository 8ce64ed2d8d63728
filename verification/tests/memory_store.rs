use std::cell::Cell;
use std::num::NonZeroUsize;
use std::rc::Rc;
use std::str::FromStr;
use std::time::Duration;

use libp2p_core::Multiaddr;
use peer_store::clock::Clock;
use peer_store::memory_store::Config;
use peer_store::memory_store::MemoryStore;
use peer_store::store::AddressSource;
use peer_store::store::Event;
use peer_store::store::LifecycleEvent;
use peer_store::store::Store;
use peer_store::types::Address;
use peer_store::types::PeerId;

/// A clock that shows what the test has set.
#[derive(Clone)]
struct TestClock {
    now: Rc<Cell<u64>>,
}

impl TestClock {
    fn at(now: u64) -> Self {
        TestClock { now: Rc::new(Cell::new(now)) }
    }

    fn set(&self, now: u64) {
        self.now.set(now);
    }
}

impl Clock for TestClock {
    fn now(&self) -> u64 {
        self.now.get()
    }
}

const MILLISECOND: u64 = 1_000_000;

fn random_peer() -> PeerId {
    PeerId::from_bytes(libp2p_core::PeerId::random().to_bytes())
}

fn address(text: &str) -> Address {
    Address::from_bytes(Multiaddr::from_str(text).expect("parsing to succeed").to_vec())
}

#[test]
fn record_expire() {
    let record_capacity = NonZeroUsize::try_from(4).expect("4 > 0");
    let record_ttl = Duration::from_millis(1);
    let config = Config::new(record_ttl.as_nanos() as u64, record_capacity.get());
    let clock = TestClock::at(5 * MILLISECOND);
    let mut store = MemoryStore::with_clock(config, clock.clone());
    let fake_peer = random_peer();
    let addr_no_expire = address("/ip4/127.0.0.1");
    let addr_should_expire = address("/ip4/127.0.0.2");
    store.update_address(&fake_peer, &addr_no_expire, AddressSource::Manual, false);
    store.update_address(&fake_peer, &addr_should_expire, AddressSource::Manual, true);
    // Two milliseconds pass.
    clock.set(5 * MILLISECOND + Duration::from_millis(2).as_nanos() as u64);
    store.check_ttl(clock.now());
    assert!(!store
        .addresses_of_peer(&fake_peer)
        .expect("peer to be in the store")
        .iter()
        .any(|r| *r == addr_should_expire));
    assert!(store
        .addresses_of_peer(&fake_peer)
        .expect("peer to be in the store")
        .iter()
        .any(|r| *r == addr_no_expire));
}

#[test]
fn recent_use_bubble_up() {
    let mut store = MemoryStore::new(Default::default());
    let fake_peer = random_peer();
    let addr1 = address("/ip4/127.0.0.1");
    let addr2 = address("/ip4/127.0.0.2");
    store.update_address(&fake_peer, &addr1, AddressSource::Manual, false);
    store.update_address(&fake_peer, &addr2, AddressSource::Manual, false);
    // Records come with the least recently used address first.
    assert!(
        store
            .address_records_of_peer(&fake_peer)
            .expect("peer to be in the store")
            .first()
            .expect("addr in the record")
            .address
            == addr1
    );
    store.update_address(&fake_peer, &addr1, AddressSource::Manual, false);
    assert!(
        store
            .address_records_of_peer(&fake_peer)
            .expect("peer to be in the store")
            .first()
            .expect("addr in the record")
            .address
            == addr2
    );
}

#[test]
fn bounded_store() {
    let mut store = MemoryStore::new(Default::default());
    let fake_peer = random_peer();
    for i in 1..10 {
        let addr_string = format!("/ip4/127.0.0.{}", i);
        store.update_address(&fake_peer, &address(&addr_string), AddressSource::Manual, false);
    }
    let first_record = address("/ip4/127.0.0.1");
    assert!(!store
        .addresses_of_peer(&fake_peer)
        .expect("peer to be in the store")
        .iter()
        .any(|addr| *addr == first_record));
    let second_record = address("/ip4/127.0.0.2");
    assert!(store
        .addresses_of_peer(&fake_peer)
        .expect("peer to be in the store")
        .iter()
        .any(|addr| *addr == second_record));
}

#[test]
fn default_config_is_ten_minutes_and_eight_addresses() {
    let config = Config::default();
    assert_eq!(config.record_ttl(), 600_000_000_000);
    assert_eq!(config.record_capacity(), 8);
}

#[test]
fn config_keeps_what_it_is_given() {
    let config = Config::new(3 * MILLISECOND, 5);
    assert_eq!(config.record_ttl(), 3_000_000);
    assert_eq!(config.record_capacity(), 5);
}

#[test]
fn update_signals_only_new_addresses() {
    let mut store = MemoryStore::with_clock(Config::default(), TestClock::at(0));
    let peer = random_peer();
    let other_peer = random_peer();
    let addr = address("/ip4/10.0.0.1/tcp/4001");
    assert!(store.update_address(&peer, &addr, AddressSource::Manual, false));
    assert!(!store.update_address(&peer, &addr, AddressSource::Manual, false));
    assert!(!store.update_address(&peer, &addr, AddressSource::Behaviour, true));
    // The same address of another peer is another pair.
    assert!(store.update_address(&other_peer, &addr, AddressSource::Manual, false));
    assert!(!store.update_address(&other_peer, &addr, AddressSource::Manual, false));
}

#[test]
fn unknown_peer_is_absent() {
    let mut store = MemoryStore::with_clock(Config::default(), TestClock::at(0));
    let known = random_peer();
    let unknown = random_peer();
    let addr = address("/ip4/10.0.0.1");
    store.update_address(&known, &addr, AddressSource::Manual, false);
    assert!(store.addresses_of_peer(&unknown).is_none());
    assert!(store.address_records_of_peer(&unknown).is_none());
    assert!(!store.remove_address(&unknown, &addr));
    assert!(store.addresses_of_peer(&unknown).is_none());
}

#[test]
fn peer_stays_tracked_without_addresses() {
    let mut store = MemoryStore::with_clock(Config::default(), TestClock::at(0));
    let peer = random_peer();
    let addr = address("/ip4/10.0.0.1");
    store.update_address(&peer, &addr, AddressSource::Manual, false);
    assert!(store.remove_address(&peer, &addr));
    assert!(!store.remove_address(&peer, &addr));
    assert_eq!(store.addresses_of_peer(&peer).expect("peer to be in the store").len(), 0);
}

#[test]
fn remove_keeps_the_order_of_the_rest() {
    let mut store = MemoryStore::with_clock(Config::default(), TestClock::at(0));
    let peer = random_peer();
    let a = address("/ip4/10.0.0.1");
    let b = address("/ip4/10.0.0.2");
    let c = address("/ip4/10.0.0.3");
    store.update_address(&peer, &a, AddressSource::Manual, false);
    store.update_address(&peer, &b, AddressSource::Manual, false);
    store.update_address(&peer, &c, AddressSource::Manual, false);
    assert!(store.remove_address(&peer, &b));
    let left = store.addresses_of_peer(&peer).expect("peer to be in the store");
    assert_eq!(left.len(), 2);
    assert!(left[0] == a);
    assert!(left[1] == c);
}

#[test]
fn addresses_come_least_recently_used_first() {
    let mut store = MemoryStore::with_clock(Config::new(MILLISECOND, 3), TestClock::at(0));
    let peer = random_peer();
    let a = address("/ip4/10.0.0.1");
    let b = address("/ip4/10.0.0.2");
    let c = address("/ip4/10.0.0.3");
    let d = address("/ip4/10.0.0.4");
    store.update_address(&peer, &a, AddressSource::Manual, false);
    store.update_address(&peer, &b, AddressSource::Manual, false);
    store.update_address(&peer, &c, AddressSource::Manual, false);
    // a, b, c; seeing a again gives b, c, a.
    store.update_address(&peer, &a, AddressSource::Manual, false);
    let now = store.addresses_of_peer(&peer).expect("peer to be in the store");
    assert!(now[0] == b && now[1] == c && now[2] == a);
    // The record is full: d takes the place of b.
    assert!(store.update_address(&peer, &d, AddressSource::Manual, false));
    let now = store.addresses_of_peer(&peer).expect("peer to be in the store");
    assert_eq!(now.len(), 3);
    assert!(now[0] == c && now[1] == a && now[2] == d);
}

#[test]
fn number_of_addresses_never_exceeds_capacity() {
    let mut store = MemoryStore::with_clock(Config::new(MILLISECOND, 2), TestClock::at(0));
    let peer = random_peer();
    for i in 1..20 {
        store.update_address(
            &peer,
            &address(&format!("/ip4/10.0.0.{}", i)),
            AddressSource::Behaviour,
            true,
        );
        let held = store.addresses_of_peer(&peer).expect("peer to be in the store").len();
        assert!(held <= 2);
        assert_eq!(held, if i == 1 { 1 } else { 2 });
    }
}

#[test]
fn capacity_of_one_keeps_the_latest() {
    let mut store = MemoryStore::with_clock(Config::new(MILLISECOND, 1), TestClock::at(0));
    let peer = random_peer();
    let a = address("/ip4/10.0.0.1");
    let b = address("/ip4/10.0.0.2");
    assert!(store.update_address(&peer, &a, AddressSource::Manual, false));
    assert!(store.update_address(&peer, &b, AddressSource::Manual, false));
    let held = store.addresses_of_peer(&peer).expect("peer to be in the store");
    assert_eq!(held.len(), 1);
    assert!(held[0] == b);
    // a was dropped, so it is new again.
    assert!(store.update_address(&peer, &a, AddressSource::Manual, false));
}

#[test]
fn refresh_keeps_source_and_flag_and_takes_the_new_time() {
    let clock = TestClock::at(10);
    let mut store = MemoryStore::with_clock(Config::default(), clock.clone());
    let peer = random_peer();
    let addr = address("/ip4/10.0.0.1");
    store.update_address(&peer, &addr, AddressSource::Behaviour, true);
    clock.set(25);
    store.update_address(&peer, &addr, AddressSource::DirectConnection, false);
    let records = store.address_records_of_peer(&peer).expect("peer to be in the store");
    assert_eq!(records.len(), 1);
    assert!(records[0].address == addr);
    assert_eq!(records[0].source, AddressSource::Behaviour);
    assert!(records[0].should_expire);
    assert_eq!(records[0].last_seen, 25);
    assert_eq!(records[0].last_seen_since(40), 15);
    assert_eq!(records[0].last_seen_since(25), 0);
    assert_eq!(records[0].last_seen_since(3), 0);
    clock.set(100);
    assert_eq!(records[0].last_seen(&clock), 75);
}

#[test]
fn update_at_takes_the_time_it_is_given() {
    let mut store = MemoryStore::with_clock(Config::default(), TestClock::at(1));
    let peer = random_peer();
    let addr = address("/ip4/10.0.0.1");
    assert!(store.update_address_at(&peer, &addr, AddressSource::Manual, true, 77));
    let records = store.address_records_of_peer(&peer).expect("peer to be in the store");
    assert_eq!(records[0].last_seen, 77);
    assert_eq!(records[0].source, AddressSource::Manual);
    assert!(!store.update_address_at(&peer, &addr, AddressSource::Manual, true, 99));
    let records = store.address_records_of_peer(&peer).expect("peer to be in the store");
    assert_eq!(records[0].last_seen, 99);
}

#[test]
fn expiry_is_strictly_after_the_time_to_live() {
    let mut store = MemoryStore::with_clock(Config::new(100, 4), TestClock::at(1_000));
    let peer = random_peer();
    let addr = address("/ip4/10.0.0.1");
    store.update_address(&peer, &addr, AddressSource::Behaviour, true);
    // Exactly the time to live has passed: the address stays.
    store.check_ttl(1_100);
    assert_eq!(store.addresses_of_peer(&peer).expect("peer to be in the store").len(), 1);
    // A time before the address was seen expires nothing.
    store.check_ttl(0);
    assert_eq!(store.addresses_of_peer(&peer).expect("peer to be in the store").len(), 1);
    store.check_ttl(1_101);
    assert_eq!(store.addresses_of_peer(&peer).expect("peer to be in the store").len(), 0);
}

#[test]
fn expiry_covers_every_peer_and_keeps_order() {
    let clock = TestClock::at(0);
    let mut store = MemoryStore::with_clock(Config::new(10, 4), clock.clone());
    let first = random_peer();
    let second = random_peer();
    let a = address("/ip4/10.0.0.1");
    let b = address("/ip4/10.0.0.2");
    let c = address("/ip4/10.0.0.3");
    store.update_address(&first, &a, AddressSource::Behaviour, true);
    store.update_address(&first, &b, AddressSource::Manual, false);
    store.update_address(&second, &a, AddressSource::Behaviour, true);
    clock.set(50);
    store.update_address(&first, &c, AddressSource::Behaviour, true);
    store.check_ttl(55);
    let of_first = store.addresses_of_peer(&first).expect("peer to be in the store");
    assert_eq!(of_first.len(), 2);
    assert!(of_first[0] == b && of_first[1] == c);
    assert_eq!(store.addresses_of_peer(&second).expect("peer to be in the store").len(), 0);
}

#[test]
fn reported_address_is_stored_as_expiring() {
    let mut store = MemoryStore::with_clock(Config::default(), TestClock::at(4));
    let peer = random_peer();
    let addr = address("/ip4/10.0.0.1");
    let event = LifecycleEvent::NewExternalAddrOfPeer { peer_id: peer.clone(), addr: addr.clone() };
    match store.on_swarm_event(&event) {
        Some(Event::RecordUpdated(updated)) => assert!(updated == peer),
        None => panic!("a new address is new knowledge"),
    }
    assert!(store.on_swarm_event(&event).is_none());
    let records = store.address_records_of_peer(&peer).expect("peer to be in the store");
    assert_eq!(records[0].source, AddressSource::Behaviour);
    assert!(records[0].should_expire);
    assert_eq!(records[0].last_seen, 4);
}

#[test]
fn established_connection_drops_failed_addresses_first() {
    let mut store = MemoryStore::with_clock(Config::default(), TestClock::at(0));
    let peer = random_peer();
    let good = address("/ip4/10.0.0.1");
    let bad = address("/ip4/10.0.0.2");
    let never_seen = address("/ip4/10.0.0.3");
    store.update_address(&peer, &bad, AddressSource::Behaviour, true);
    store.update_address(&peer, &good, AddressSource::Behaviour, true);
    let event = LifecycleEvent::ConnectionEstablished {
        peer_id: peer.clone(),
        failed_addresses: vec![bad.clone(), never_seen.clone(), bad.clone()],
        remote_address: good.clone(),
    };
    // The good address is known, but a failed one was removed.
    assert!(matches!(store.on_swarm_event(&event), Some(Event::RecordUpdated(_))));
    let records = store.address_records_of_peer(&peer).expect("peer to be in the store");
    assert_eq!(records.len(), 1);
    assert!(records[0].address == good);
    // The first observation decides the source.
    assert_eq!(records[0].source, AddressSource::Behaviour);
    // Nothing is removed and nothing is new the second time.
    assert!(store.on_swarm_event(&event).is_none());
}

#[test]
fn established_connection_stores_a_lasting_address() {
    let mut store = MemoryStore::with_clock(Config::new(10, 4), TestClock::at(0));
    let peer = random_peer();
    let good = address("/ip4/10.0.0.1");
    let event = LifecycleEvent::ConnectionEstablished {
        peer_id: peer.clone(),
        failed_addresses: vec![good.clone()],
        remote_address: good.clone(),
    };
    assert!(matches!(store.on_swarm_event(&event), Some(Event::RecordUpdated(_))));
    let records = store.address_records_of_peer(&peer).expect("peer to be in the store");
    assert_eq!(records.len(), 1);
    assert_eq!(records[0].source, AddressSource::DirectConnection);
    assert!(!records[0].should_expire);
    store.check_ttl(1_000_000);
    assert_eq!(store.addresses_of_peer(&peer).expect("peer to be in the store").len(), 1);
    // The address is both failed and confirmed: it is removed and stored anew.
    assert!(matches!(store.on_swarm_event(&event), Some(Event::RecordUpdated(_))));
}

#[test]
fn other_events_are_ignored() {
    let mut store = MemoryStore::with_clock(Config::default(), TestClock::at(0));
    let peer = random_peer();
    assert!(store.on_swarm_event(&LifecycleEvent::Other).is_none());
    assert!(store.addresses_of_peer(&peer).is_none());
    assert!(store.poll().is_none());
}

#[test]
fn system_clock_does_not_run_backwards() {
    let store = MemoryStore::new(Config::default());
    let first = store.clock().now();
    let second = store.clock().now();
    assert!(first <= second);
}

#[test]
fn peers_and_addresses_are_their_bytes() {
    let addr = Address::from_bytes(vec![4, 127, 0, 0, 1]);
    assert_eq!(addr.as_bytes(), &vec![4u8, 127, 0, 0, 1]);
    assert!(addr == address("/ip4/127.0.0.1"));
    assert!(addr != address("/ip4/127.0.0.2"));
    assert!(addr.clone() == addr);
    assert_eq!(addr.into_bytes(), vec![4u8, 127, 0, 0, 1]);
    let peer = PeerId::from_bytes(vec![0, 1, 2]);
    assert!(peer.clone() == peer);
    assert!(peer != PeerId::from_bytes(vec![0, 1]));
    assert_eq!(peer.as_bytes(), &vec![0u8, 1, 2]);
    assert_eq!(peer.into_bytes(), vec![0u8, 1, 2]);
}

#[test]
fn peers_that_end_alike_are_kept_apart() {
    let mut store = MemoryStore::with_clock(Config::default(), TestClock::at(0));
    // The last eight bytes of the four are the same.
    let peers = vec![
        PeerId::from_bytes(vec![1, 0, 0, 0, 0, 0, 0, 0, 9]),
        PeerId::from_bytes(vec![2, 0, 0, 0, 0, 0, 0, 0, 9]),
        PeerId::from_bytes(vec![0, 9]),
        PeerId::from_bytes(vec![9]),
    ];
    for (i, peer) in peers.iter().enumerate() {
        assert!(store.addresses_of_peer(peer).is_none());
        let addr = address(&format!("/ip4/10.0.0.{}", i + 1));
        assert!(store.update_address(peer, &addr, AddressSource::Manual, false));
    }
    for (i, peer) in peers.iter().enumerate() {
        let held = store.addresses_of_peer(peer).expect("peer to be in the store");
        assert_eq!(held.len(), 1);
        assert!(held[0] == address(&format!("/ip4/10.0.0.{}", i + 1)));
    }
    assert!(store.remove_address(&peers[1], &address("/ip4/10.0.0.2")));
    assert!(!store.remove_address(&peers[0], &address("/ip4/10.0.0.2")));
    assert_eq!(store.addresses_of_peer(&peers[1]).expect("peer to be in the store").len(), 0);
    assert_eq!(store.addresses_of_peer(&peers[0]).expect("peer to be in the store").len(), 1);
    assert!(store.addresses_of_peer(&PeerId::from_bytes(vec![3, 0, 0, 0, 0, 0, 0, 0, 9])).is_none());
}

#[test]
fn many_peers_are_each_found_again() {
    let mut store = MemoryStore::with_clock(Config::new(MILLISECOND, 2), TestClock::at(0));
    let peers: Vec<PeerId> = (0..200).map(|_| random_peer()).collect();
    for (i, peer) in peers.iter().enumerate() {
        let addr = address(&format!("/ip4/10.0.{}.{}", i / 100, i % 100));
        assert!(store.update_address(peer, &addr, AddressSource::Behaviour, true));
    }
    for (i, peer) in peers.iter().enumerate() {
        let addr = address(&format!("/ip4/10.0.{}.{}", i / 100, i % 100));
        assert!(!store.update_address(peer, &addr, AddressSource::Behaviour, true));
        let held = store.addresses_of_peer(peer).expect("peer to be in the store");
        assert_eq!(held.len(), 1);
        assert!(held[0] == addr);
    }
    assert!(store.addresses_of_peer(&random_peer()).is_none());
    store.check_ttl(2 * MILLISECOND);
    for peer in peers.iter() {
        assert_eq!(store.addresses_of_peer(peer).expect("peer to be in the store").len(), 0);
    }
}
