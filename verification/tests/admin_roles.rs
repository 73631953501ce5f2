use soroban_sdk::Env;
use shade::errors::ContractError;
use shade::host_vec::TokenList;
use shade::state::ShadeState;
use shade::types::OracleConfig;

const ADMIN: u64 = 1;

fn to_std(v: &TokenList) -> Vec<u64> {
    (0..v.len()).map(|i| v.get(i)).collect()
}

fn token_list(env: &Env, tokens: &[u64]) -> TokenList {
    let mut l = TokenList::new(env);
    for t in tokens {
        l.push(*t);
    }
    l
}

fn setup(env: &Env) -> ShadeState {
    let mut s = ShadeState::new(env);
    s.initialize(ADMIN).unwrap();
    s
}

#[test]
fn initialize_only_once() {
    let env = Env::default();
    let mut s = setup(&env);
    assert_eq!(s.initialize(2), Err(ContractError::AlreadyInitialized));
    assert_eq!(s.assert_admin(ADMIN), Ok(()));
    assert_eq!(s.assert_admin(2), Err(ContractError::NotAuthorized));
}

#[test]
fn accepted_tokens_add_and_remove() {
    let env = Env::default();
    let mut s = setup(&env);
    assert_eq!(s.add_accepted_token(ADMIN, 10), Ok(true));
    assert_eq!(s.add_accepted_token(ADMIN, 10), Ok(false));
    assert_eq!(s.add_accepted_token(2, 11), Err(ContractError::NotAuthorized));
    let batch = token_list(&env, &[11, 10, 12, 11]);
    assert_eq!(s.add_accepted_tokens(ADMIN, &batch), Ok(vec![11, 12]));
    assert_eq!(to_std(&s.get_accepted_tokens()), vec![10, 11, 12]);
    assert!(s.is_accepted_token(12));
    assert_eq!(s.remove_accepted_token(&env, ADMIN, 11), Ok(true));
    assert_eq!(s.remove_accepted_token(&env, ADMIN, 11), Ok(false));
    assert!(!s.is_accepted_token(11));
    assert_eq!(to_std(&s.get_accepted_tokens()), vec![10, 12]);
    assert_eq!(s.remove_accepted_token(&env, 3, 10), Err(ContractError::NotAuthorized));
}

#[test]
fn platform_account_falls_back_to_admin() {
    let env = Env::default();
    let mut s = ShadeState::new(&env);
    assert_eq!(s.get_platform_account(), Err(ContractError::NotInitialized));
    s.initialize(ADMIN).unwrap();
    assert_eq!(s.get_platform_account(), Ok(ADMIN));
    assert_eq!(s.set_platform_account(2, 50), Err(ContractError::NotAuthorized));
    assert_eq!(s.set_platform_account(ADMIN, 50), Ok(()));
    assert_eq!(s.get_platform_account(), Ok(50));
}

#[test]
fn oracle_configuration() {
    let env = Env::default();
    let mut s = setup(&env);
    let cfg = OracleConfig { contract: 77, price_decimals: 8, token_decimals: 7 };
    assert_eq!(s.set_token_oracle(ADMIN, 10, cfg), Err(ContractError::TokenNotAccepted));
    assert_eq!(s.get_token_oracle(10), Err(ContractError::OracleNotConfigured));
    s.add_accepted_token(ADMIN, 10).unwrap();
    assert_eq!(s.set_token_oracle(ADMIN, 10, cfg), Ok(()));
    assert_eq!(s.get_token_oracle(10), Ok(cfg));
}

#[test]
fn admin_hand_over() {
    let env = Env::default();
    let mut s = setup(&env);
    assert_eq!(s.accept_admin_transfer(5), Err(ContractError::NotAuthorized));
    assert_eq!(s.propose_admin_transfer(2, 5), Err(ContractError::NotAuthorized));
    assert_eq!(s.propose_admin_transfer(ADMIN, 5), Ok(()));
    assert_eq!(s.accept_admin_transfer(6), Err(ContractError::NotAuthorized));
    assert_eq!(s.accept_admin_transfer(5), Ok(ADMIN));
    assert_eq!(s.assert_admin(5), Ok(()));
    assert_eq!(s.assert_admin(ADMIN), Err(ContractError::NotAuthorized));
    assert_eq!(s.accept_admin_transfer(5), Err(ContractError::NotAuthorized));
}

#[test]
fn account_wasm_hash_needs_admin() {
    let env = Env::default();
    let mut s = setup(&env);
    assert_eq!(s.set_account_wasm_hash(2, [3u8; 32]), Err(ContractError::NotAuthorized));
    assert_eq!(s.set_account_wasm_hash(ADMIN, [3u8; 32]), Ok(()));
    assert_eq!(s.account_wasm_hash, Some([3u8; 32]));
}

#[test]
fn batch_accept_matches_one_by_one() {
    let env = Env::default();
    let mut batch = setup(&env);
    let mut single = setup(&env);
    batch.add_accepted_token(ADMIN, 12).unwrap();
    single.add_accepted_token(ADMIN, 12).unwrap();
    let tokens = [11u64, 12, 13, 11, 14];
    batch.add_accepted_tokens(ADMIN, &token_list(&env, &tokens)).unwrap();
    for t in tokens {
        single.add_accepted_token(ADMIN, t).unwrap();
    }
    assert_eq!(to_std(&batch.get_accepted_tokens()), to_std(&single.get_accepted_tokens()));
    assert_eq!(to_std(&batch.get_accepted_tokens()), vec![12, 11, 13, 14]);
}

#[test]
fn accepting_then_removing_restores_the_list() {
    let env = Env::default();
    let mut s = setup(&env);
    s.add_accepted_tokens(ADMIN, &token_list(&env, &[10, 11])).unwrap();
    let before = to_std(&s.get_accepted_tokens());
    assert_eq!(s.add_accepted_token(ADMIN, 12), Ok(true));
    // A new token goes at the end.
    assert_eq!(to_std(&s.get_accepted_tokens()), vec![10, 11, 12]);
    // Accepting it again changes nothing.
    assert_eq!(s.add_accepted_token(ADMIN, 12), Ok(false));
    assert_eq!(to_std(&s.get_accepted_tokens()), vec![10, 11, 12]);
    assert_eq!(s.remove_accepted_token(&env, ADMIN, 12), Ok(true));
    assert_eq!(to_std(&s.get_accepted_tokens()), before);
}

#[test]
fn accepted_tokens_never_repeat() {
    let env = Env::default();
    let mut s = setup(&env);
    s.add_accepted_tokens(ADMIN, &token_list(&env, &[10, 10, 11, 10])).unwrap();
    s.add_accepted_token(ADMIN, 11).unwrap();
    s.add_accepted_tokens(ADMIN, &token_list(&env, &[11, 12, 12])).unwrap();
    let tokens = to_std(&s.get_accepted_tokens());
    assert_eq!(tokens, vec![10, 11, 12]);
    s.remove_accepted_token(&env, ADMIN, 11).unwrap();
    assert_eq!(to_std(&s.get_accepted_tokens()), vec![10, 12]);
}

#[test]
fn execute_fee_checks_the_admin_first() {
    let env = Env::default();
    let mut s = setup(&env);
    s.add_accepted_token(ADMIN, 10).unwrap();
    s.propose_fee(ADMIN, 10, 250, 1_000).unwrap();
    // A caller who is not the admin is refused whatever the time.
    assert_eq!(s.execute_fee(2, 10, 0), Err(ContractError::NotAuthorized));
    assert_eq!(s.execute_fee(ADMIN, 10, 1_000 + 172_800), Ok(250));
}
