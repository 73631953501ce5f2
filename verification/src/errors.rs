use vstd::prelude::*;

verus! {

/// Errors raised by the Shade payment contract.
#[derive(Copy, Clone, Debug, PartialEq, Eq, Structural)]
pub enum ContractError {
    NotInitialized,
    AlreadyInitialized,
    NotAuthorized,
    TokenNotAccepted,
    OracleNotConfigured,
    NoPendingFeeUpdate,
    FeeUpdateTooEarly,
    MerchantNotFound,
    MerchantAlreadyRegistered,
    MerchantNotActive,
    InvoiceNotFound,
    InvalidAmount,
    WasmHashNotSet,
}

/// Errors raised by the ticketing factory contract.
#[derive(Copy, Clone, Debug, PartialEq, Eq, Structural)]
pub enum FactoryError {
    AlreadyInitialized,
    NotInitialized,
    NotAuthorized,
    WasmHashNotSet,
    EventRefNotFound,
}

} // verus!
