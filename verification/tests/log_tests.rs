use event_log::errors::LoggerErrors;
use event_log::record::EventStorage;
use event_log::record::MAX_EVENTS;
use event_log::record::MAX_EVENT_BYTES;
use event_log::store::LogStore;

#[test]
fn create_makes_empty_record() {
    let mut store = LogStore::new();
    assert!(store.initialize_event_storage(42).is_ok());
    assert_eq!(store.slots.len(), 1);
    assert_eq!(store.slots[0].record.block_number, 42);
    assert!(store.slots[0].record.events.is_empty());
}

#[test]
fn create_twice_fails_and_changes_nothing() {
    let mut store = LogStore::new();
    assert!(store.initialize_event_storage(7).is_ok());
    let address = store.slots[0].address.clone();
    let bump = store.slots[0].record.bump;
    assert_eq!(
        store.initialize_event_storage(7),
        Err(LoggerErrors::SlotAlreadyExists)
    );
    assert_eq!(store.slots.len(), 1);
    assert_eq!(store.slots[0].address, address);
    assert_eq!(store.slots[0].record.block_number, 7);
    assert_eq!(store.slots[0].record.bump, bump);
    assert!(store.slots[0].record.events.is_empty());
}

#[test]
fn appends_keep_order() {
    let mut store = LogStore::new();
    assert!(store.initialize_event_storage(3).is_ok());
    let p1 = vec![1u8, 2, 3];
    let p2 = vec![4u8];
    let p3 = vec![];
    assert!(store.log_event(p1.clone(), 3).is_ok());
    assert!(store.log_event(p2.clone(), 3).is_ok());
    assert!(store.log_event(p3.clone(), 3).is_ok());
    assert_eq!(store.slots[0].record.events, vec![p1, p2, p3]);
}

#[test]
fn capacity_boundary_rejects_with_log_full() {
    let mut store = LogStore::new();
    assert!(store.initialize_event_storage(9).is_ok());
    for i in 0..MAX_EVENTS {
        assert!(store.log_event(vec![i as u8], 9).is_ok());
    }
    assert_eq!(store.slots[0].record.events.len(), MAX_EVENTS);
    assert_eq!(store.log_event(vec![0xFF], 9), Err(LoggerErrors::LogFull));
    assert_eq!(store.slots[0].record.events.len(), MAX_EVENTS);
    assert_eq!(store.slots[0].record.events[0], vec![0u8]);
    assert_eq!(store.slots[0].record.events[MAX_EVENTS - 1], vec![(MAX_EVENTS - 1) as u8]);
}

#[test]
fn oversized_payload_rejected() {
    let mut store = LogStore::new();
    assert!(store.initialize_event_storage(11).is_ok());
    let too_big = vec![0u8; MAX_EVENT_BYTES + 1];
    assert_eq!(
        store.log_event(too_big, 11),
        Err(LoggerErrors::PayloadTooLarge)
    );
    assert!(store.slots[0].record.events.is_empty());
    let just_fits = vec![0u8; MAX_EVENT_BYTES];
    assert!(store.log_event(just_fits, 11).is_ok());
    assert_eq!(store.slots[0].record.events.len(), 1);
}

#[test]
fn derivation_is_deterministic() {
    let (a1, t1) = event_log::locator::derive(123).unwrap();
    let (a2, t2) = event_log::locator::derive(123).unwrap();
    assert_eq!(a1, a2);
    assert_eq!(t1, t2);
    assert_eq!(a1.len(), 32);
}

#[test]
fn derivation_separates_sampled_keys() {
    let keys = [0u64, 1, 2, 42, 7, u64::MAX];
    let addresses: Vec<Vec<u8>> = keys.iter().map(|k| event_log::locator::derive(*k).unwrap().0).collect();
    for i in 0..addresses.len() {
        for j in 0..addresses.len() {
            if i != j {
                assert_ne!(addresses[i], addresses[j]);
            }
        }
    }
}

#[test]
fn key_mismatch_rejected_and_mutates_nothing() {
    let mut store = LogStore::new();
    assert!(store.initialize_event_storage(5).is_ok());
    // Forge a record whose stored key differs from the key its address was
    // derived for: the stored key is the ground truth, so the append must
    // fail even though the address matches.
    store.slots[0].record.block_number = 99;
    assert_eq!(
        store.log_event(vec![1u8, 2], 5),
        Err(LoggerErrors::KeyMismatch)
    );
    assert_eq!(store.slots.len(), 1);
    assert_eq!(store.slots[0].record.block_number, 99);
    assert!(store.slots[0].record.events.is_empty());
}

#[test]
fn record_level_append_validates_key_and_capacity() {
    let mut record = EventStorage::new(8, 254);
    assert_eq!(record.block_number, 8);
    assert_eq!(record.bump, 254);
    assert_eq!(
        record.append_event(9, vec![1u8]),
        Err(LoggerErrors::KeyMismatch)
    );
    assert!(record.events.is_empty());
    assert!(record.append_event(8, vec![1u8]).is_ok());
    assert_eq!(record.events, vec![vec![1u8]]);
    assert_eq!(
        record.append_event(8, vec![0u8; MAX_EVENT_BYTES + 1]),
        Err(LoggerErrors::PayloadTooLarge)
    );
    assert_eq!(record.events, vec![vec![1u8]]);
}

#[test]
fn scenario_create_append_and_missing_slot() {
    let mut store = LogStore::new();
    assert!(store.initialize_event_storage(42).is_ok());
    assert_eq!(store.slots[0].record.block_number, 42);
    assert!(store.slots[0].record.events.is_empty());
    assert!(store.log_event(vec![0xAA, 0xBB], 42).is_ok());
    assert_eq!(store.slots[0].record.block_number, 42);
    assert_eq!(store.slots[0].record.events, vec![vec![0xAA, 0xBB]]);
    assert_eq!(store.log_event(vec![0x01], 7), Err(LoggerErrors::SlotMissing));
    assert_eq!(store.slots.len(), 1);
    assert_eq!(store.slots[0].record.events, vec![vec![0xAA, 0xBB]]);
}

#[test]
fn independent_keys_do_not_interfere() {
    let mut store = LogStore::new();
    assert!(store.initialize_event_storage(1).is_ok());
    assert!(store.initialize_event_storage(2).is_ok());
    assert!(store.log_event(vec![10u8], 1).is_ok());
    assert!(store.log_event(vec![20u8], 2).is_ok());
    assert!(store.log_event(vec![30u8], 1).is_ok());
    let first = &store.slots[0];
    let second = &store.slots[1];
    assert_eq!(first.record.block_number, 1);
    assert_eq!(first.record.events, vec![vec![10u8], vec![30u8]]);
    assert_eq!(second.record.block_number, 2);
    assert_eq!(second.record.events, vec![vec![20u8]]);
}
