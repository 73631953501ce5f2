//! Data model of a merchant account contract.

use vstd::prelude::*;
use crate::types::Addr;

verus! {

/// Errors raised by a merchant account contract.
#[derive(Copy, Clone, Debug, PartialEq, Eq, Structural)]
pub enum ContractError {
    AlreadyInitialized,
    NotInitialized,
    NotAuthorized,
    InsufficientBalance,
    AccountRestricted,
    InvoiceNotFound,
    InvalidInvoiceStatus,
}

impl ContractError {
    /// The numeric error code the contract reports for this error.
    pub fn code(&self) -> (c: u32)
        ensures
            c == (match *self {
                ContractError::AlreadyInitialized => 1u32,
                ContractError::NotInitialized => 2u32,
                ContractError::NotAuthorized => 3u32,
                ContractError::InsufficientBalance => 4u32,
                ContractError::AccountRestricted => 5u32,
                ContractError::InvoiceNotFound => 6u32,
                ContractError::InvalidInvoiceStatus => 7u32,
            }),
    {
        match self {
            ContractError::AlreadyInitialized => 1,
            ContractError::NotInitialized => 2,
            ContractError::NotAuthorized => 3,
            ContractError::InsufficientBalance => 4,
            ContractError::AccountRestricted => 5,
            ContractError::InvoiceNotFound => 6,
            ContractError::InvalidInvoiceStatus => 7,
        }
    }
}

/// Storage keys of a merchant account contract.
#[derive(Copy, Clone, Debug, PartialEq, Eq, Structural)]
pub enum DataKey {
    Manager,
    Merchant,
    Verified,
    Restricted,
    AccountInfo,
    TrackedTokens,
    WithdrawalAnalytics(Addr),
    Threshold,
    WithdrawalRequest(u64),
    WithdrawalCount,
}

/// Identity of a merchant account: who manages it and whom it belongs to.
#[derive(Copy, Clone, Debug, PartialEq, Eq, Structural)]
pub struct AccountInfo {
    pub manager: Addr,
    pub merchant_id: u64,
    pub merchant: Addr,
    pub date_created: u64,
}

/// Balance the account holds of one token.
#[derive(Copy, Clone, Debug, PartialEq, Eq, Structural)]
pub struct TokenBalance {
    pub token: Addr,
    pub balance: i128,
}

/// Running withdrawal totals of one token.
#[derive(Copy, Clone, Debug, PartialEq, Eq, Structural)]
pub struct WithdrawalAnalytics {
    pub token: Addr,
    pub total_withdrawn: i128,
    pub withdrawal_count: u64,
    pub last_withdrawn_at: u64,
}

/// A withdrawal awaiting approvals.
#[derive(Clone, Debug)]
pub struct WithdrawalRequest {
    pub id: u64,
    pub token: Addr,
    pub amount: i128,
    pub recipient: Addr,
    pub approvals: Vec<Addr>,
    pub status: WithdrawalStatus,
}

/// Lifecycle of a withdrawal request.
#[derive(Copy, Clone, Debug, PartialEq, Eq, Structural)]
pub enum WithdrawalStatus {
    Pending,
    Approved,
    Executed,
}

impl WithdrawalStatus {
    /// The numeric value under which the status is stored.
    pub fn code(&self) -> (c: u32)
        ensures
            c == (match *self {
                WithdrawalStatus::Pending => 0u32,
                WithdrawalStatus::Approved => 1u32,
                WithdrawalStatus::Executed => 2u32,
            }),
    {
        match self {
            WithdrawalStatus::Pending => 0,
            WithdrawalStatus::Approved => 1,
            WithdrawalStatus::Executed => 2,
        }
    }
}

} // verus!
