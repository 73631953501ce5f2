use shade::errors::FactoryError;
use shade::factory::{EventContractDeployedEvent, TicketingFactory};

fn setup() -> (u64, TicketingFactory) {
    let mut f = TicketingFactory::new();
    let admin = 1;
    f.initialize(admin).unwrap();
    (admin, f)
}

#[test]
fn test_initialize_sets_admin() {
    let (_admin, _factory) = setup();
}

#[test]
#[should_panic]
fn test_double_initialize_panics() {
    let (admin, mut factory) = setup();
    factory.initialize(admin).unwrap();
}

#[test]
fn test_set_ticketing_wasm_hash_by_admin() {
    let (admin, mut factory) = setup();
    factory.set_ticketing_wasm_hash(admin, [1u8; 32]).unwrap();
}

#[test]
#[should_panic]
fn test_set_ticketing_wasm_hash_non_admin_panics() {
    let (_admin, mut factory) = setup();
    let impostor = 99;
    factory.set_ticketing_wasm_hash(impostor, [2u8; 32]).unwrap();
}

#[test]
fn test_get_event_ref_after_registration() {
    let mut factory = TicketingFactory::new();
    let organizer = 10;
    let ticketing_contract = 500;
    let stored = factory.record_deployment(organizer, ticketing_contract, 0);
    let fetched = factory.get_event_ref(stored.ref_id).unwrap();
    assert_eq!(fetched.ref_id, 1);
    assert_eq!(fetched.contract, ticketing_contract);
    assert_eq!(fetched.organizer, organizer);
}

#[test]
fn test_get_event_ref_count() {
    let (_admin, mut factory) = setup();
    assert_eq!(factory.get_event_ref_count(), 0);
    let organizer = 10;
    factory.record_deployment(organizer, 500, 0);
    assert_eq!(factory.get_event_ref_count(), 1);
    factory.record_deployment(organizer, 501, 0);
    assert_eq!(factory.get_event_ref_count(), 2);
}

#[test]
fn test_get_all_event_refs_returns_all() {
    let (_admin, mut factory) = setup();
    let organizer = 10;
    let (c1, c2, c3) = (501, 502, 503);
    factory.record_deployment(organizer, c1, 0);
    factory.record_deployment(organizer, c2, 0);
    factory.record_deployment(organizer, c3, 0);

    let all = factory.get_all_event_refs();
    assert_eq!(all.len(), 3);
    let mut found_c1 = false;
    let mut found_c2 = false;
    let mut found_c3 = false;
    for r in all.iter() {
        if r.contract == c1 { found_c1 = true; }
        if r.contract == c2 { found_c2 = true; }
        if r.contract == c3 { found_c3 = true; }
    }
    assert!(found_c1);
    assert!(found_c2);
    assert!(found_c3);
}

#[test]
#[should_panic]
fn test_get_nonexistent_event_ref_panics() {
    let (_admin, factory) = setup();
    factory.get_event_ref(999).unwrap();
}

#[test]
fn refs_come_back_in_order_with_timestamps() {
    let mut factory = TicketingFactory::new();
    let a = factory.record_deployment(10, 501, 1_000);
    let b = factory.record_deployment(11, 502, 2_000);
    assert_eq!((a.ref_id, b.ref_id), (1, 2));
    assert_eq!(factory.get_all_event_refs(), vec![a, b]);
    assert_eq!(factory.get_event_ref(2).unwrap().deployed_at, 2_000);
    assert_eq!(factory.get_event_ref(3), Err(FactoryError::EventRefNotFound));
    let e = EventContractDeployedEvent::from_ref(&b);
    assert_eq!((e.ref_id, e.contract, e.organizer, e.timestamp), (2, 502, 11, 2_000));
}

#[test]
fn factory_admin_checks() {
    let mut factory = TicketingFactory::new();
    assert_eq!(factory.set_ticketing_wasm_hash(1, [0u8; 32]), Err(FactoryError::NotInitialized));
    factory.initialize(1).unwrap();
    assert_eq!(factory.initialize(2), Err(FactoryError::AlreadyInitialized));
    assert_eq!(factory.set_ticketing_wasm_hash(2, [0u8; 32]), Err(FactoryError::NotAuthorized));
}
