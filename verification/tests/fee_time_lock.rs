use soroban_sdk::Env;
use shade::errors::ContractError;
use shade::state::ShadeState;

const ADMIN: u64 = 1;
const TOKEN: u64 = 100;

fn setup(env: &Env) -> ShadeState {
    let mut s = ShadeState::new(env);
    s.initialize(ADMIN).unwrap();
    assert_eq!(s.add_accepted_token(ADMIN, TOKEN), Ok(true));
    s
}

#[test]
fn test_time_locked_fee_update_success() {
    let env = Env::default();
    let mut s = setup(&env);
    let start: u64 = 0;
    let new_fee = 500; // 5%
    s.propose_fee(ADMIN, TOKEN, new_fee, start).unwrap();

    // Still the old fee (default 0)
    assert_eq!(s.get_fee(TOKEN), 0);

    // 49 hours later (the delay is 48)
    assert_eq!(s.execute_fee(ADMIN, TOKEN, start + 49 * 3600), Ok(new_fee));
    assert_eq!(s.get_fee(TOKEN), new_fee);
}

#[test]
fn test_execute_fee_too_early() {
    let env = Env::default();
    let mut s = setup(&env);
    s.propose_fee(ADMIN, TOKEN, 500, 0).unwrap();
    let result = s.execute_fee(ADMIN, TOKEN, 10 * 3600);
    assert!(matches!(result, Err(ContractError::FeeUpdateTooEarly)));
}

#[test]
fn test_execute_fee_no_pending() {
    let env = Env::default();
    let mut s = setup(&env);
    let result = s.execute_fee(ADMIN, TOKEN, 0);
    assert!(matches!(result, Err(ContractError::NoPendingFeeUpdate)));
}

#[test]
fn fee_takes_effect_exactly_at_delay() {
    let env = Env::default();
    let mut s = setup(&env);
    s.propose_fee(ADMIN, TOKEN, 700, 1_000).unwrap();
    assert_eq!(s.execute_fee(ADMIN, TOKEN, 1_000 + 172_799), Err(ContractError::FeeUpdateTooEarly));
    assert_eq!(s.get_pending_fee(TOKEN).unwrap().fee, 700);
    assert_eq!(s.execute_fee(ADMIN, TOKEN, 1_000 + 172_800), Ok(700));
    assert_eq!(s.get_fee(TOKEN), 700);
    assert_eq!(s.get_pending_fee(TOKEN), Err(ContractError::NoPendingFeeUpdate));
    // The proposal is used up.
    assert_eq!(s.execute_fee(ADMIN, TOKEN, 1_000_000), Err(ContractError::NoPendingFeeUpdate));
}

#[test]
fn fee_changes_need_admin_and_accepted_token() {
    let env = Env::default();
    let mut s = setup(&env);
    assert_eq!(s.propose_fee(2, TOKEN, 10, 0), Err(ContractError::NotAuthorized));
    assert_eq!(s.propose_fee(ADMIN, 101, 10, 0), Err(ContractError::TokenNotAccepted));
    assert_eq!(s.set_fee(2, TOKEN, 10), Err(ContractError::NotAuthorized));
    assert_eq!(s.set_fee(ADMIN, 101, 10), Err(ContractError::TokenNotAccepted));
    assert_eq!(s.execute_fee(2, TOKEN, 0), Err(ContractError::NotAuthorized));
    assert_eq!(s.set_fee(ADMIN, TOKEN, 250), Ok(()));
    assert_eq!(s.get_fee(TOKEN), 250);
    let mut fresh = ShadeState::new(&env);
    assert_eq!(fresh.set_fee(ADMIN, TOKEN, 1), Err(ContractError::NotInitialized));
}
