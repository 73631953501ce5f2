//! The ledger state of the Shade payment contract.

use vstd::prelude::*;
use std::collections::BTreeMap;
use soroban_sdk::Env;
use crate::host_vec::TokenList;
use crate::types::{Addr, Event, Merchant, MerchantAnalytics, MerchantAnalyticsSummary, OracleConfig, PendingFee, TokenAnalytics};

verus! {

/// Everything the Shade contract keeps in persistent storage, one field per
/// storage key; keys that carry addresses become maps.
pub struct ShadeState {
    pub admin: Option<Addr>,
    pub pending_admin: Option<Addr>,
    pub accepted_tokens: TokenList,
    pub account_wasm_hash: Option<[u8; 32]>,
    pub platform_account: Option<Addr>,
    pub token_fees: BTreeMap<Addr, i128>,
    pub pending_fees: BTreeMap<Addr, PendingFee>,
    pub token_oracles: BTreeMap<Addr, OracleConfig>,
    pub merchant_analytics: BTreeMap<(Addr, Addr), MerchantAnalytics>,
    pub merchant_volumes: BTreeMap<(Addr, Addr), i128>,
    pub merchant_summaries: BTreeMap<Addr, MerchantAnalyticsSummary>,
    pub token_analytics: BTreeMap<Addr, TokenAnalytics>,
    pub token_volumes: BTreeMap<Addr, i128>,
    pub merchant_ids: BTreeMap<Addr, u64>,
    pub merchants: BTreeMap<u64, Merchant>,
    pub merchant_count: u64,
    pub events: BTreeMap<u64, Event>,
    pub event_count: u64,
}

/// The mathematical content of a [`ShadeState`].
pub struct ShadeView {
    pub admin: Option<Addr>,
    pub pending_admin: Option<Addr>,
    pub accepted_tokens: Seq<Addr>,
    pub account_wasm_hash: Option<[u8; 32]>,
    pub platform_account: Option<Addr>,
    pub token_fees: Map<Addr, i128>,
    pub pending_fees: Map<Addr, PendingFee>,
    pub token_oracles: Map<Addr, OracleConfig>,
    pub merchant_analytics: Map<(Addr, Addr), MerchantAnalytics>,
    pub merchant_volumes: Map<(Addr, Addr), i128>,
    pub merchant_summaries: Map<Addr, MerchantAnalyticsSummary>,
    pub token_analytics: Map<Addr, TokenAnalytics>,
    pub token_volumes: Map<Addr, i128>,
    pub merchant_ids: Map<Addr, u64>,
    pub merchants: Map<u64, Merchant>,
    pub merchant_count: u64,
    pub events: Map<u64, Event>,
    pub event_count: u64,
}

impl View for ShadeState {
    type V = ShadeView;

    open spec fn view(&self) -> ShadeView {
        ShadeView {
            admin: self.admin,
            pending_admin: self.pending_admin,
            accepted_tokens: self.accepted_tokens@,
            account_wasm_hash: self.account_wasm_hash,
            platform_account: self.platform_account,
            token_fees: self.token_fees@,
            pending_fees: self.pending_fees@,
            token_oracles: self.token_oracles@,
            merchant_analytics: self.merchant_analytics@,
            merchant_volumes: self.merchant_volumes@,
            merchant_summaries: self.merchant_summaries@,
            token_analytics: self.token_analytics@,
            token_volumes: self.token_volumes@,
            merchant_ids: self.merchant_ids@,
            merchants: self.merchants@,
            merchant_count: self.merchant_count,
            events: self.events@,
            event_count: self.event_count,
        }
    }
}

impl ShadeView {
    /// The state of a freshly deployed contract.
    pub open spec fn empty() -> ShadeView {
        ShadeView {
            admin: None,
            pending_admin: None,
            accepted_tokens: Seq::empty(),
            account_wasm_hash: None,
            platform_account: None,
            token_fees: Map::empty(),
            pending_fees: Map::empty(),
            token_oracles: Map::empty(),
            merchant_analytics: Map::empty(),
            merchant_volumes: Map::empty(),
            merchant_summaries: Map::empty(),
            token_analytics: Map::empty(),
            token_volumes: Map::empty(),
            merchant_ids: Map::empty(),
            merchants: Map::empty(),
            merchant_count: 0,
            events: Map::empty(),
            event_count: 0,
        }
    }

    /// What the operations keep: no token is accepted twice, every
    /// registered merchant address leads to its merchant record, merchant and
    /// event ids are handed out in sequence, and no event sells more tickets
    /// than it has seats.
    pub open spec fn wf(self) -> bool {
        &&& self.accepted_tokens.no_duplicates()
        &&& forall|a: Addr| #[trigger] self.merchant_ids.contains_key(a) ==> {
            let id = self.merchant_ids[a];
            &&& self.merchants.contains_key(id)
            &&& self.merchants[id].address == a
        }
        &&& forall|id: u64| #[trigger] self.merchants.contains_key(id) ==> {
            &&& 1 <= id <= self.merchant_count
            &&& self.merchants[id].id == id
        }
        &&& forall|id: u64| #[trigger] self.events.contains_key(id) ==> {
            &&& 1 <= id <= self.event_count
            &&& self.events[id].id == id
            &&& self.events[id].sold <= self.events[id].capacity
        }
    }
}

impl ShadeState {
    /// A contract with nothing stored yet.
    pub fn new(env: &Env) -> (s: ShadeState)
        ensures
            s@ == ShadeView::empty(),
            s@.wf(),
    {
        ShadeState {
            admin: None,
            pending_admin: None,
            accepted_tokens: TokenList::new(env),
            account_wasm_hash: None,
            platform_account: None,
            token_fees: BTreeMap::new(),
            pending_fees: BTreeMap::new(),
            token_oracles: BTreeMap::new(),
            merchant_analytics: BTreeMap::new(),
            merchant_volumes: BTreeMap::new(),
            merchant_summaries: BTreeMap::new(),
            token_analytics: BTreeMap::new(),
            token_volumes: BTreeMap::new(),
            merchant_ids: BTreeMap::new(),
            merchants: BTreeMap::new(),
            merchant_count: 0,
            events: BTreeMap::new(),
            event_count: 0,
        }
    }
}

} // verus!
