//! Deployment of merchant account contracts by the Shade contract.

use vstd::prelude::*;
use soroban_sdk::Env;
use crate::deploy::{deployment_salt, spec_keccak256, DeploymentPlan};
use crate::errors::ContractError;
use crate::state::ShadeState;
use crate::types::Addr;

verus! {

/// A merchant account deployment: the code and salt, and the arguments the
/// new account is initialized with, in order: its merchant, its manager (the
/// Shade contract) and the merchant's id.
#[derive(Copy, Clone, Debug)]
pub struct AccountDeployment {
    pub plan: DeploymentPlan,
    pub init_args: (Addr, Addr, u64),
}

impl ShadeState {
    /// What deploying a merchant account takes: the account code the admin
    /// stored, the digest of 32 random bytes as salt, and the account's
    /// initialization arguments.
    pub fn prepare_account_deployment(
        &self,
        env: &Env,
        merchant: Addr,
        merchant_id: u64,
        manager: Addr,
        random: &[u8; 32],
    ) -> (r: Result<AccountDeployment, ContractError>)
        ensures
            match self@.account_wasm_hash {
                None => r == Err::<AccountDeployment, ContractError>(ContractError::WasmHashNotSet),
                Some(h) => r is Ok && {
                    let d = r->Ok_0;
                    &&& d.plan.wasm_hash == h
                    &&& d.plan.salt@ == spec_keccak256(random@)
                    &&& d.init_args == (merchant, manager, merchant_id)
                },
            },
    {
        let wasm_hash = match self.account_wasm_hash {
            Some(h) => h,
            None => return Err(ContractError::WasmHashNotSet),
        };
        let salt = deployment_salt(env, random);
        Ok(AccountDeployment { plan: DeploymentPlan { wasm_hash, salt }, init_args: (merchant, manager, merchant_id) })
    }
}

} // verus!
