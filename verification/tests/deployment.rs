use shade::deploy::deployment_salt;
use shade::errors::{ContractError, FactoryError};
use shade::factory::TicketingFactory;
use shade::state::ShadeState;
use soroban_sdk::Env;

const KECCAK_OF_32_ZEROS: [u8; 32] = [
    0x29, 0x0d, 0xec, 0xd9, 0x54, 0x8b, 0x62, 0xa8, 0xd6, 0x03, 0x45, 0xa9, 0x88, 0x38, 0x6f, 0xc8,
    0x4b, 0xa6, 0xbc, 0x95, 0x48, 0x40, 0x08, 0xf6, 0x36, 0x2f, 0x93, 0x16, 0x0e, 0xf3, 0xe5, 0x63,
];

#[test]
fn salt_is_the_keccak_digest_of_the_random_bytes() {
    let env = Env::default();
    let salt = deployment_salt(&env, &[0u8; 32]);
    assert_eq!(salt, KECCAK_OF_32_ZEROS);
    assert_ne!(deployment_salt(&env, &[1u8; 32]), [1u8; 32]);
}

#[test]
fn factory_deployment_needs_the_code() {
    let env = Env::default();
    let mut factory = TicketingFactory::new();
    factory.initialize(1).unwrap();
    assert!(matches!(factory.prepare_deployment(&env, &[0u8; 32]), Err(FactoryError::WasmHashNotSet)));
    factory.set_ticketing_wasm_hash(1, [9u8; 32]).unwrap();
    let plan = factory.prepare_deployment(&env, &[0u8; 32]).unwrap();
    assert_eq!(plan.wasm_hash, [9u8; 32]);
    assert_eq!(plan.salt, KECCAK_OF_32_ZEROS);
}

#[test]
fn account_deployment_needs_the_code() {
    let env = Env::default();
    let mut s = ShadeState::new(&env);
    s.initialize(1).unwrap();
    assert!(matches!(s.prepare_account_deployment(&env, 7, 1, 900, &[0u8; 32]), Err(ContractError::WasmHashNotSet)));
    s.set_account_wasm_hash(1, [4u8; 32]).unwrap();
    let d = s.prepare_account_deployment(&env, 7, 1, 900, &[0u8; 32]).unwrap();
    assert_eq!(d.plan.wasm_hash, [4u8; 32]);
    assert_eq!(d.plan.salt, KECCAK_OF_32_ZEROS);
    assert_eq!(d.init_args, (7, 900, 1));
}
