//! Records kept by the Shade payment contract.

use vstd::prelude::*;

verus! {

/// An on-chain address (account or contract), identified by a number.
pub type Addr = u64;

/// Price oracle used to convert fiat amounts into a token.
#[derive(Copy, Clone, Debug, PartialEq, Eq, Structural)]
pub struct OracleConfig {
    pub contract: Addr,
    pub price_decimals: u32,
    pub token_decimals: u32,
}

/// A fee change waiting out its time lock.
#[derive(Copy, Clone, Debug, PartialEq, Eq, Structural)]
pub struct PendingFee {
    pub token: Addr,
    pub fee: i128,
    pub proposed_at: u64,
}

/// Payment totals of one merchant in one token.
#[derive(Copy, Clone, Debug, PartialEq, Eq, Structural)]
pub struct MerchantAnalytics {
    pub merchant: Addr,
    pub token: Addr,
    pub total_volume: i128,
    pub total_fees: i128,
    pub transaction_count: u64,
    pub last_updated: u64,
}

/// Payment totals of one merchant over all tokens.
#[derive(Copy, Clone, Debug, PartialEq, Eq, Structural)]
pub struct MerchantAnalyticsSummary {
    pub merchant: Addr,
    pub total_volume: i128,
    pub total_fees: i128,
    pub transaction_count: u64,
    pub last_updated: u64,
}

/// Payment totals of one token over all merchants.
#[derive(Copy, Clone, Debug, PartialEq, Eq, Structural)]
pub struct TokenAnalytics {
    pub token: Addr,
    pub total_volume: i128,
    pub total_fees: i128,
    pub transaction_count: u64,
    pub unique_merchants: u64,
    pub last_updated: u64,
}

/// A registered merchant.
#[derive(Copy, Clone, Debug, PartialEq, Eq, Structural)]
pub struct Merchant {
    pub id: u64,
    pub address: Addr,
    pub active: bool,
}

/// A ticketed event sold by a merchant.
#[derive(Clone, Debug)]
pub struct Event {
    pub id: u64,
    pub merchant_id: u64,
    /// The event's name, as the bytes of the host string.
    pub name: Vec<u8>,
    pub ticket_price: i128,
    pub token: Addr,
    pub capacity: u32,
    pub sold: u32,
    pub date: u64,
}

} // verus!
