use peer_store::record::AddressRecord;
use peer_store::record::PeerAddressRecord;
use peer_store::store::AddressSource;
use peer_store::types::Address;

fn address(last: u8) -> Address {
    Address::from_bytes(vec![4, 10, 0, 0, last])
}

fn addresses_in(record: &PeerAddressRecord) -> Vec<Vec<u8>> {
    record.records().into_iter().map(|r| r.address.into_bytes()).collect()
}

#[test]
fn new_record_holds_what_it_is_given() {
    let record = AddressRecord::new(AddressSource::DirectConnection, false, 42);
    assert_eq!(
        record,
        AddressRecord { last_seen: 42, source: AddressSource::DirectConnection, should_expire: false }
    );
}

#[test]
fn seeing_again_changes_the_time_only() {
    let mut record = AddressRecord::new(AddressSource::Behaviour, true, 1);
    record.update_last_seen(9);
    assert_eq!(
        record,
        AddressRecord { last_seen: 9, source: AddressSource::Behaviour, should_expire: true }
    );
}

#[test]
fn staleness_needs_the_flag_and_more_than_the_time_to_live() {
    let expiring = AddressRecord::new(AddressSource::Behaviour, true, 100);
    assert!(!expiring.is_expired(100, 10));
    assert!(!expiring.is_expired(110, 10));
    assert!(expiring.is_expired(111, 10));
    assert!(!expiring.is_expired(50, 10));
    assert!(!expiring.is_expired(100, 0));
    assert!(expiring.is_expired(101, 0));
    assert!(expiring.is_expired(u64::MAX, u64::MAX - 101));
    assert!(!expiring.is_expired(u64::MAX, u64::MAX - 100));
    let lasting = AddressRecord::new(AddressSource::Behaviour, false, 100);
    assert!(!lasting.is_expired(111, 10));
    assert!(!lasting.is_expired(u64::MAX, 0));
}

#[test]
fn empty_record_has_no_records() {
    let mut record = PeerAddressRecord::new(3);
    assert_eq!(record.records().len(), 0);
    assert!(!record.remove_address(&address(1)));
    record.check_ttl(u64::MAX, 0);
    assert_eq!(record.records().len(), 0);
}

#[test]
fn record_evicts_the_least_recently_used() {
    let mut record = PeerAddressRecord::new(2);
    assert!(record.update_address(&address(1), AddressSource::Manual, false, 1));
    assert!(record.update_address(&address(2), AddressSource::Manual, false, 2));
    assert!(!record.update_address(&address(1), AddressSource::Manual, false, 3));
    assert!(record.update_address(&address(3), AddressSource::Manual, false, 4));
    assert_eq!(addresses_in(&record), vec![vec![4, 10, 0, 0, 1], vec![4, 10, 0, 0, 3]]);
    let records = record.records();
    assert_eq!(records[0].last_seen, 3);
    assert_eq!(records[1].last_seen, 4);
}

#[test]
fn eviction_does_not_look_at_source_or_flag() {
    let mut record = PeerAddressRecord::new(2);
    record.update_address(&address(1), AddressSource::DirectConnection, false, 1);
    record.update_address(&address(2), AddressSource::Behaviour, true, 2);
    record.update_address(&address(2), AddressSource::Behaviour, true, 3);
    record.update_address(&address(3), AddressSource::Behaviour, true, 4);
    assert_eq!(addresses_in(&record), vec![vec![4, 10, 0, 0, 2], vec![4, 10, 0, 0, 3]]);
}

#[test]
fn record_forgets_one_address() {
    let mut record = PeerAddressRecord::new(4);
    for last in 1..=4 {
        record.update_address(&address(last), AddressSource::Manual, false, 0);
    }
    assert!(record.remove_address(&address(1)));
    assert!(record.remove_address(&address(3)));
    assert!(!record.remove_address(&address(3)));
    assert_eq!(addresses_in(&record), vec![vec![4, 10, 0, 0, 2], vec![4, 10, 0, 0, 4]]);
    // There is room again: nothing is evicted.
    assert!(record.update_address(&address(5), AddressSource::Manual, false, 0));
    assert!(record.update_address(&address(6), AddressSource::Manual, false, 0));
    assert_eq!(record.records().len(), 4);
}

#[test]
fn record_drops_stale_addresses_only() {
    let mut record = PeerAddressRecord::new(8);
    record.update_address(&address(1), AddressSource::Behaviour, true, 10);
    record.update_address(&address(2), AddressSource::Manual, false, 10);
    record.update_address(&address(3), AddressSource::Behaviour, true, 30);
    record.update_address(&address(4), AddressSource::Behaviour, true, 10);
    record.update_address(&address(5), AddressSource::Behaviour, true, 31);
    record.check_ttl(50, 20);
    assert_eq!(
        addresses_in(&record),
        vec![vec![4, 10, 0, 0, 2], vec![4, 10, 0, 0, 3], vec![4, 10, 0, 0, 5]]
    );
    record.check_ttl(50, 20);
    assert_eq!(record.records().len(), 3);
    record.check_ttl(51, 20);
    assert_eq!(addresses_in(&record), vec![vec![4, 10, 0, 0, 2], vec![4, 10, 0, 0, 5]]);
    record.check_ttl(52, 20);
    assert_eq!(addresses_in(&record), vec![vec![4, 10, 0, 0, 2]]);
    let left = record.records();
    assert_eq!(left[0].source, AddressSource::Manual);
    assert!(!left[0].should_expire);
    assert_eq!(left[0].last_seen, 10);
}
