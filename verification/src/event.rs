//! Merchants and the ticketed events they sell.

use vstd::prelude::*;
use crate::errors::ContractError;
use crate::state::{ShadeState, ShadeView};
use crate::types::{Addr, Event, Merchant};

verus! {

impl ShadeView {
    /// Whether a registered `merchant` has its merchant record; a
    /// well-formed state has it for every registered merchant.
    pub open spec fn merchant_record_present(self, merchant: Addr) -> bool {
        self.merchant_ids.contains_key(merchant) ==> self.merchants.contains_key(self.merchant_ids[merchant])
    }

    /// The outcome of `merchant` asking for an event: the new event's id.
    pub open spec fn create_event_outcome(self, merchant: Addr) -> Result<u64, ContractError> {
        if !self.merchant_ids.contains_key(merchant) {
            Err(ContractError::MerchantNotFound)
        } else if !self.merchants[self.merchant_ids[merchant]].active {
            Err(ContractError::MerchantNotActive)
        } else {
            Ok((self.event_count + 1) as u64)
        }
    }

    /// The state once `merchant` has created an event at `now`, with no
    /// ticket sold yet.
    pub open spec fn after_create_event(
        self,
        merchant: Addr,
        name: Vec<u8>,
        ticket_price: i128,
        token: Addr,
        capacity: u32,
        now: u64,
    ) -> ShadeView {
        let id = (self.event_count + 1) as u64;
        ShadeView {
            events: self.events.insert(
                id,
                Event {
                    id,
                    merchant_id: self.merchant_ids[merchant],
                    name,
                    ticket_price,
                    token,
                    capacity,
                    sold: 0,
                    date: now,
                },
            ),
            event_count: id,
            ..self
        }
    }

    /// The outcome of buying a ticket for event `event_id`.
    pub open spec fn purchase_outcome(self, event_id: u64) -> Result<(), ContractError> {
        if !self.events.contains_key(event_id) {
            Err(ContractError::InvoiceNotFound)
        } else if self.events[event_id].sold >= self.events[event_id].capacity {
            Err(ContractError::InvalidAmount)
        } else {
            Ok(())
        }
    }

    /// The state once one more ticket of event `event_id` has been sold.
    pub open spec fn after_purchase(self, event_id: u64) -> ShadeView {
        let e = self.events[event_id];
        ShadeView { events: self.events.insert(event_id, Event { sold: (e.sold + 1) as u32, ..e }), ..self }
    }

    /// The state once `merchant` has been registered under the next id, active.
    pub open spec fn after_register_merchant(self, merchant: Addr) -> ShadeView {
        let id = (self.merchant_count + 1) as u64;
        ShadeView {
            merchant_ids: self.merchant_ids.insert(merchant, id),
            merchants: self.merchants.insert(id, Merchant { id, address: merchant, active: true }),
            merchant_count: id,
            ..self
        }
    }
}

impl ShadeState {
    /// Registers `merchant` under the next merchant id, active; the result is
    /// that id.
    pub fn register_merchant(&mut self, merchant: Addr) -> (r: Result<u64, ContractError>)
        requires
            old(self)@.merchant_count < u64::MAX,
        ensures
            r == (if old(self)@.merchant_ids.contains_key(merchant) {
                Err::<u64, ContractError>(ContractError::MerchantAlreadyRegistered)
            } else {
                Ok((old(self)@.merchant_count + 1) as u64)
            }),
            final(self)@ == (if r is Ok {
                old(self)@.after_register_merchant(merchant)
            } else {
                old(self)@
            }),
            old(self)@.wf() ==> final(self)@.wf(),
    {
        if self.merchant_ids.contains_key(&merchant) {
            return Err(ContractError::MerchantAlreadyRegistered);
        }
        let id = self.merchant_count + 1;
        self.merchant_ids.insert(merchant, id);
        self.merchants.insert(id, Merchant { id, address: merchant, active: true });
        self.merchant_count = id;
        Ok(id)
    }

    /// Whether a registered `merchant` has its merchant record.
    pub fn has_merchant_record(&self, merchant: Addr) -> (b: bool)
        ensures
            b == self@.merchant_record_present(merchant),
    {
        match self.merchant_ids.get(&merchant) {
            Some(id) => self.merchants.contains_key(id),
            None => true,
        }
    }

    /// An active merchant opens an event with `capacity` seats at
    /// `ticket_price` in `token`; the result is the event's id, the next in
    /// sequence.
    pub fn create_event(
        &mut self,
        merchant: Addr,
        name: Vec<u8>,
        ticket_price: i128,
        token: Addr,
        capacity: u32,
        now: u64,
    ) -> (r: Result<u64, ContractError>)
        requires
            old(self)@.merchant_record_present(merchant),
            old(self)@.event_count < u64::MAX,
        ensures
            r == old(self)@.create_event_outcome(merchant),
            final(self)@ == (if r is Ok {
                old(self)@.after_create_event(merchant, name, ticket_price, token, capacity, now)
            } else {
                old(self)@
            }),
            old(self)@.wf() ==> final(self)@.wf(),
    {
        let merchant_id = match self.merchant_ids.get(&merchant) {
            Some(id) => *id,
            None => return Err(ContractError::MerchantNotFound),
        };
        let active = match self.merchants.get(&merchant_id) {
            Some(m) => m.active,
            None => {
                proof {
                    assert(self@.merchant_ids.contains_key(merchant));
                }
                return Err(ContractError::MerchantNotFound);
            },
        };
        if !active {
            return Err(ContractError::MerchantNotActive);
        }
        let id = self.event_count + 1;
        let event = Event {
            id,
            merchant_id,
            name,
            ticket_price,
            token,
            capacity,
            sold: 0,
            date: now,
        };
        self.events.insert(id, event);
        self.event_count = id;
        Ok(id)
    }

    /// Sells one ticket of event `event_id` to `buyer`, unless it is sold out.
    pub fn purchase_ticket(&mut self, event_id: u64, buyer: Addr) -> (r: Result<(), ContractError>)
        ensures
            r == old(self)@.purchase_outcome(event_id),
            final(self)@ == (if r is Ok {
                old(self)@.after_purchase(event_id)
            } else {
                old(self)@
            }),
            old(self)@.wf() ==> final(self)@.wf(),
    {
        let mut event = match self.events.remove(&event_id) {
            Some(e) => e,
            None => {
                proof {
                    assert(self@.events =~= old(self)@.events);
                }
                return Err(ContractError::InvoiceNotFound);
            },
        };
        if event.sold >= event.capacity {
            self.events.insert(event_id, event);
            proof {
                assert(self@.events =~= old(self)@.events);
            }
            return Err(ContractError::InvalidAmount);
        }
        event.sold = event.sold + 1;
        self.events.insert(event_id, event);
        proof {
            assert(self@.events =~= old(self)@.after_purchase(event_id).events);
        }
        Ok(())
    }

    /// Whether an event with id `event_id` exists.
    pub fn has_event(&self, event_id: u64) -> (b: bool)
        ensures
            b == self@.events.contains_key(event_id),
    {
        self.events.contains_key(&event_id)
    }

    /// The event with id `event_id`.
    pub fn get_event(&self, event_id: u64) -> (e: &Event)
        requires
            self@.events.contains_key(event_id),
        ensures
            *e == self@.events[event_id],
    {
        self.events.get(&event_id).unwrap()
    }
}

} // verus!
