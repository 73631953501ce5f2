use soroban_sdk::Env;
use shade::errors::ContractError;
use shade::state::ShadeState;

const ADMIN: u64 = 1;
const TOKEN: u64 = 100;

fn setup(env: &Env) -> ShadeState {
    let mut s = ShadeState::new(env);
    s.initialize(ADMIN).unwrap();
    s.add_accepted_token(ADMIN, TOKEN).unwrap();
    s
}

#[test]
fn test_event_creation_and_purchase() {
    let env = Env::default();
    let mut s = setup(&env);
    let merchant = 7;
    s.register_merchant(merchant).unwrap();

    let event_id = s.create_event(merchant, b"Concert".to_vec(), 100, TOKEN, 2, 0).unwrap();

    let event = s.get_event(event_id);
    assert_eq!(event.name, b"Concert".to_vec());
    assert_eq!(event.capacity, 2);
    assert_eq!(event.sold, 0);

    let buyer1 = 20;
    s.purchase_ticket(event_id, buyer1).unwrap();
    assert_eq!(s.get_event(event_id).sold, 1);

    let buyer2 = 21;
    s.purchase_ticket(event_id, buyer2).unwrap();
    assert_eq!(s.get_event(event_id).sold, 2);
}

#[test]
#[should_panic]
fn test_event_sold_out() {
    let env = Env::default();
    let mut s = setup(&env);
    let merchant = 7;
    s.register_merchant(merchant).unwrap();
    let event_id = s.create_event(merchant, b"Small Show".to_vec(), 100, TOKEN, 1, 0).unwrap();
    s.purchase_ticket(event_id, 20).unwrap();
    s.purchase_ticket(event_id, 21).unwrap(); // sold out
}

#[test]
fn sold_out_and_missing_events_are_refused() {
    let env = Env::default();
    let mut s = setup(&env);
    s.register_merchant(7).unwrap();
    let id = s.create_event(7, b"Tiny".to_vec(), 5, TOKEN, 1, 42).unwrap();
    assert_eq!(s.purchase_ticket(id, 20), Ok(()));
    assert_eq!(s.purchase_ticket(id, 21), Err(ContractError::InvalidAmount));
    assert_eq!(s.get_event(id).sold, 1);
    assert_eq!(s.get_event(id).date, 42);
    assert_eq!(s.purchase_ticket(99, 21), Err(ContractError::InvoiceNotFound));
    assert!(!s.has_event(99));
}

#[test]
fn events_need_an_active_merchant() {
    let env = Env::default();
    let mut s = setup(&env);
    assert_eq!(s.create_event(7, b"X".to_vec(), 1, TOKEN, 1, 0), Err(ContractError::MerchantNotFound));
    assert_eq!(s.register_merchant(7), Ok(1));
    assert_eq!(s.register_merchant(7), Err(ContractError::MerchantAlreadyRegistered));
    assert_eq!(s.register_merchant(8), Ok(2));
    assert_eq!(s.create_event(7, b"A".to_vec(), 1, TOKEN, 1, 0), Ok(1));
    assert_eq!(s.create_event(8, b"B".to_vec(), 1, TOKEN, 1, 0), Ok(2));
    assert_eq!(s.get_event(2).merchant_id, 2);
    s.merchants.get_mut(&2).unwrap().active = false;
    assert_eq!(s.create_event(8, b"C".to_vec(), 1, TOKEN, 1, 0), Err(ContractError::MerchantNotActive));
    assert!(!s.has_event(3));
}

#[test]
fn a_purchase_touches_only_its_event() {
    let env = Env::default();
    let mut s = setup(&env);
    s.register_merchant(7).unwrap();
    let a = s.create_event(7, b"A".to_vec(), 100, TOKEN, 3, 5).unwrap();
    let b = s.create_event(7, b"B".to_vec(), 200, TOKEN, 3, 6).unwrap();
    assert_eq!((a, b), (1, 2));
    s.purchase_ticket(b, 20).unwrap();
    let ea = s.get_event(a);
    assert_eq!((ea.sold, ea.capacity, ea.ticket_price, ea.date), (0, 3, 100, 5));
    let eb = s.get_event(b);
    assert_eq!((eb.sold, eb.capacity, eb.ticket_price, eb.date), (1, 3, 200, 6));
    assert_eq!(eb.name, b"B".to_vec());
    assert_eq!(s.purchase_ticket(3, 20), Err(ContractError::InvoiceNotFound));
}
