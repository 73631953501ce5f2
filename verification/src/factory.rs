//! The ticketing factory: deploys a ticketing contract per large event and
//! keeps a numbered reference to each one.

use vstd::prelude::*;
use std::collections::BTreeMap;
use soroban_sdk::Env;
use crate::deploy::{deployment_salt, spec_keccak256, DeploymentPlan};
use crate::errors::FactoryError;
use crate::types::Addr;

verus! {

/// Records a deployed ticketing contract instance associated with an organizer.
#[derive(Copy, Clone, Debug, PartialEq, Eq, Structural)]
pub struct EventRef {
    /// Sequential reference id assigned by the factory.
    pub ref_id: u64,
    /// Address of the deployed ticketing contract.
    pub contract: Addr,
    /// Organizer who requested the deployment.
    pub organizer: Addr,
    /// Ledger timestamp at deployment time.
    pub deployed_at: u64,
}

/// What the factory announces when it has deployed a ticketing contract.
#[derive(Copy, Clone, Debug, PartialEq, Eq, Structural)]
pub struct EventContractDeployedEvent {
    pub ref_id: u64,
    pub contract: Addr,
    pub organizer: Addr,
    pub timestamp: u64,
}

impl EventContractDeployedEvent {
    /// The announcement of the deployment that `event_ref` records.
    pub fn from_ref(event_ref: &EventRef) -> (e: EventContractDeployedEvent)
        ensures
            e == (EventContractDeployedEvent {
                ref_id: event_ref.ref_id,
                contract: event_ref.contract,
                organizer: event_ref.organizer,
                timestamp: event_ref.deployed_at,
            }),
    {
        EventContractDeployedEvent {
            ref_id: event_ref.ref_id,
            contract: event_ref.contract,
            organizer: event_ref.organizer,
            timestamp: event_ref.deployed_at,
        }
    }
}

/// The factory's persistent storage.
pub struct TicketingFactory {
    pub admin: Option<Addr>,
    pub ticketing_wasm_hash: Option<[u8; 32]>,
    pub event_refs: BTreeMap<u64, EventRef>,
    pub event_ref_count: u64,
}

/// The mathematical content of a [`TicketingFactory`].
pub struct FactoryView {
    pub admin: Option<Addr>,
    pub ticketing_wasm_hash: Option<[u8; 32]>,
    pub event_refs: Map<u64, EventRef>,
    pub event_ref_count: u64,
}

impl View for TicketingFactory {
    type V = FactoryView;

    open spec fn view(&self) -> FactoryView {
        FactoryView {
            admin: self.admin,
            ticketing_wasm_hash: self.ticketing_wasm_hash,
            event_refs: self.event_refs@,
            event_ref_count: self.event_ref_count,
        }
    }
}

/// The references stored under ids `1..=n`, in id order, skipping ids with
/// nothing stored.
pub open spec fn refs_up_to(refs: Map<u64, EventRef>, n: nat) -> Seq<EventRef>
    decreases n,
{
    if n == 0 {
        Seq::empty()
    } else {
        let before = refs_up_to(refs, (n - 1) as nat);
        if refs.contains_key(n as u64) {
            before.push(refs[n as u64])
        } else {
            before
        }
    }
}

impl FactoryView {
    /// What deployments keep: the references are exactly those numbered
    /// `1..=event_ref_count`, each under its own number.
    pub open spec fn wf(self) -> bool {
        &&& forall|id: u64| #[trigger] self.event_refs.contains_key(id) <==> 1 <= id <= self.event_ref_count
        &&& forall|id: u64| #[trigger] self.event_refs.contains_key(id) ==> self.event_refs[id].ref_id == id
    }

    /// Whether `caller` is the factory's admin.
    pub open spec fn admin_check(self, caller: Addr) -> Result<(), FactoryError> {
        match self.admin {
            None => Err(FactoryError::NotInitialized),
            Some(a) => if a == caller {
                Ok(())
            } else {
                Err(FactoryError::NotAuthorized)
            },
        }
    }

    /// The reference that the next deployment gets.
    pub open spec fn next_ref(self, organizer: Addr, contract: Addr, now: u64) -> EventRef {
        EventRef { ref_id: (self.event_ref_count + 1) as u64, contract, organizer, deployed_at: now }
    }

    /// The state once a deployment has been recorded.
    pub open spec fn after_record(self, organizer: Addr, contract: Addr, now: u64) -> FactoryView {
        let r = self.next_ref(organizer, contract, now);
        FactoryView {
            event_refs: self.event_refs.insert(r.ref_id, r),
            event_ref_count: r.ref_id,
            ..self
        }
    }
}

impl TicketingFactory {
    /// A factory with nothing stored yet.
    pub fn new() -> (f: TicketingFactory)
        ensures
            f@.admin is None,
            f@.ticketing_wasm_hash is None,
            f@.event_refs == Map::<u64, EventRef>::empty(),
            f@.event_ref_count == 0,
            f@.wf(),
    {
        TicketingFactory { admin: None, ticketing_wasm_hash: None, event_refs: BTreeMap::new(), event_ref_count: 0 }
    }

    /// Initializes the factory with an admin address; only once.
    pub fn initialize(&mut self, admin: Addr) -> (r: Result<(), FactoryError>)
        ensures
            r == (if old(self)@.admin is Some {
                Err::<(), FactoryError>(FactoryError::AlreadyInitialized)
            } else {
                Ok(())
            }),
            final(self)@ == (if r is Ok {
                FactoryView { admin: Some(admin), ..old(self)@ }
            } else {
                old(self)@
            }),
    {
        if self.admin.is_some() {
            return Err(FactoryError::AlreadyInitialized);
        }
        self.admin = Some(admin);
        Ok(())
    }

    /// Checks that `caller` is the admin.
    fn require_admin(&self, caller: Addr) -> (r: Result<(), FactoryError>)
        ensures
            r == self@.admin_check(caller),
    {
        match self.admin {
            None => Err(FactoryError::NotInitialized),
            Some(a) => if a == caller {
                Ok(())
            } else {
                Err(FactoryError::NotAuthorized)
            },
        }
    }

    /// Sets the code of the ticketing contract to deploy; admin only.
    pub fn set_ticketing_wasm_hash(&mut self, admin: Addr, wasm_hash: [u8; 32]) -> (r: Result<(), FactoryError>)
        ensures
            r == old(self)@.admin_check(admin),
            final(self)@ == (if r is Ok {
                FactoryView { ticketing_wasm_hash: Some(wasm_hash), ..old(self)@ }
            } else {
                old(self)@
            }),
    {
        self.require_admin(admin)?;
        self.ticketing_wasm_hash = Some(wasm_hash);
        Ok(())
    }

    /// What deploying a ticketing contract takes: the stored code, and the
    /// digest of 32 random bytes as salt so that each deployment lands at a
    /// fresh address.
    pub fn prepare_deployment(&self, env: &Env, random: &[u8; 32]) -> (r: Result<DeploymentPlan, FactoryError>)
        ensures
            match self@.ticketing_wasm_hash {
                None => r == Err::<DeploymentPlan, FactoryError>(FactoryError::WasmHashNotSet),
                Some(h) => r is Ok && r->Ok_0.wasm_hash == h && r->Ok_0.salt@ == spec_keccak256(random@),
            },
    {
        let wasm_hash = match self.ticketing_wasm_hash {
            Some(h) => h,
            None => return Err(FactoryError::WasmHashNotSet),
        };
        let salt = deployment_salt(env, random);
        Ok(DeploymentPlan { wasm_hash, salt })
    }

    /// Records that `contract` was deployed for `organizer` at `now`, under
    /// the next reference id; the result is the stored reference.
    pub fn record_deployment(&mut self, organizer: Addr, contract: Addr, now: u64) -> (r: EventRef)
        requires
            old(self)@.event_ref_count < u64::MAX,
        ensures
            r == old(self)@.next_ref(organizer, contract, now),
            final(self)@ == old(self)@.after_record(organizer, contract, now),
            old(self)@.wf() ==> final(self)@.wf(),
    {
        let ref_id = self.get_event_ref_count() + 1;
        let event_ref = EventRef { ref_id, contract, organizer, deployed_at: now };
        self.event_refs.insert(ref_id, event_ref);
        self.event_ref_count = ref_id;
        event_ref
    }

    /// The reference stored under `ref_id`.
    pub fn get_event_ref(&self, ref_id: u64) -> (r: Result<EventRef, FactoryError>)
        ensures
            r == (if self@.event_refs.contains_key(ref_id) {
                Ok::<EventRef, FactoryError>(self@.event_refs[ref_id])
            } else {
                Err(FactoryError::EventRefNotFound)
            }),
    {
        match self.event_refs.get(&ref_id) {
            Some(r) => Ok(*r),
            None => Err(FactoryError::EventRefNotFound),
        }
    }

    /// Total number of event contracts deployed through this factory.
    pub fn get_event_ref_count(&self) -> (n: u64)
        ensures
            n == self@.event_ref_count,
    {
        self.event_ref_count
    }

    /// All stored references, in the order they were numbered.
    pub fn get_all_event_refs(&self) -> (refs: Vec<EventRef>)
        ensures
            refs@ == refs_up_to(self@.event_refs, self@.event_ref_count as nat),
    {
        let count = self.get_event_ref_count();
        let mut refs: Vec<EventRef> = Vec::new();
        let mut i: u64 = 0;
        while i < count
            invariant
                count == self@.event_ref_count,
                0 <= i <= count,
                refs@ == refs_up_to(self@.event_refs, i as nat),
            decreases count - i,
        {
            i = i + 1;
            match self.event_refs.get(&i) {
                Some(r) => refs.push(*r),
                None => {},
            }
        }
        refs
    }
}

} // verus!
