//! Salts for deploying contracts at fresh addresses.

use vstd::prelude::*;
use soroban_sdk::Env;

verus! {

/// The contract host's environment, `soroban_sdk::Env`, carried through opaque.
#[verifier::external_type_specification]
#[verifier::external_body]
pub struct ExEnv(soroban_sdk::Env);

/// The Keccak-256 digest of a byte string.
pub uninterp spec fn spec_keccak256(data: Seq<u8>) -> Seq<u8>;

/// Calls `soroban_sdk::crypto::Crypto::keccak256` on the bytes. The contract
/// claims only that the digest is the Keccak-256 digest of exactly these
/// bytes, a function of the bytes alone.
#[verifier::external_body]
fn keccak256(env: &Env, data: &[u8; 32]) -> (digest: [u8; 32])
    ensures
        digest@ == spec_keccak256(data@),
{
    env.crypto().keccak256(&soroban_sdk::Bytes::from_slice(env, data)).to_array()
}

/// The salt under which a contract is deployed: the Keccak-256 digest of 32
/// random bytes drawn from the ledger's generator.
pub fn deployment_salt(env: &Env, random: &[u8; 32]) -> (salt: [u8; 32])
    ensures
        salt@ == spec_keccak256(random@),
{
    keccak256(env, random)
}

/// What a deployment needs: the code to install and the salt that fixes the
/// new contract's address.
#[derive(Copy, Clone, Debug)]
pub struct DeploymentPlan {
    pub wasm_hash: [u8; 32],
    pub salt: [u8; 32],
}

} // verus!
