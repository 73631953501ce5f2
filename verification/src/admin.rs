//! Administration of the Shade contract: accepted tokens, fees and their time
//! lock, price oracles, the platform account and the hand-over of the admin
//! role.

use vstd::prelude::*;
use soroban_sdk::Env;
use crate::errors::ContractError;
use crate::host_vec::TokenList;
use crate::state::{ShadeState, ShadeView};
use crate::types::{Addr, OracleConfig, PendingFee};

verus! {

/// Seconds a proposed fee must wait before it can take effect (48 hours).
pub const FEE_UPDATE_DELAY: u64 = 172_800;

/// `s` with every occurrence of `token` taken out, the rest in order.
pub open spec fn without_token(s: Seq<Addr>, token: Addr) -> Seq<Addr>
    decreases s.len(),
{
    if s.len() == 0 {
        s
    } else {
        let rest = without_token(s.drop_last(), token);
        if s.last() == token {
            rest
        } else {
            rest.push(s.last())
        }
    }
}

/// `acc` extended, in order, by each of `tokens` not already in it.
pub open spec fn with_tokens(acc: Seq<Addr>, tokens: Seq<Addr>) -> Seq<Addr>
    decreases tokens.len(),
{
    if tokens.len() == 0 {
        acc
    } else {
        let before = with_tokens(acc, tokens.drop_last());
        if before.contains(tokens.last()) {
            before
        } else {
            before.push(tokens.last())
        }
    }
}

/// `acc` with `token` added at the end unless it is there already.
pub open spec fn accept_one(acc: Seq<Addr>, token: Addr) -> Seq<Addr> {
    if acc.contains(token) {
        acc
    } else {
        acc.push(token)
    }
}

/// Adding a list of tokens never shortens the list: adding a prefix of them
/// gives at most as many as adding all.
pub proof fn lemma_with_tokens_grows(acc: Seq<Addr>, tokens: Seq<Addr>, i: int)
    requires
        0 <= i <= tokens.len(),
    ensures
        with_tokens(acc, tokens.take(i)).len() <= with_tokens(acc, tokens).len(),
    decreases tokens.len(),
{
    if i == tokens.len() {
        assert(tokens.take(i) =~= tokens);
    } else {
        let p = tokens.drop_last();
        assert(p.take(i) =~= tokens.take(i));
        lemma_with_tokens_grows(acc, p, i);
    }
}

/// What taking a token out keeps: exactly the other tokens, still without
/// repeats.
pub proof fn lemma_without_token(s: Seq<Addr>, token: Addr)
    ensures
        forall|x: Addr| #[trigger] without_token(s, token).contains(x) <==> (s.contains(x) && x != token),
        s.no_duplicates() ==> without_token(s, token).no_duplicates(),
        without_token(s, token).len() <= s.len(),
    decreases s.len(),
{
    if s.len() > 0 {
        let p = s.drop_last();
        lemma_without_token(p, token);
        let rest = without_token(p, token);
        let w = without_token(s, token);
        assert forall|x: Addr| #[trigger] w.contains(x) <==> (s.contains(x) && x != token) by {
            if s.contains(x) && x != token {
                let i = choose|i: int| 0 <= i < s.len() && s[i] == x;
                if i < s.len() - 1 {
                    assert(p[i] == x);
                    assert(p.contains(x));
                    assert(rest.contains(x));
                    let k = choose|k: int| 0 <= k < rest.len() && rest[k] == x;
                    if s.last() != token {
                        assert(w[k] == x);
                    }
                } else {
                    assert(w[w.len() - 1] == x);
                }
            }
            if w.contains(x) {
                let k = choose|k: int| 0 <= k < w.len() && w[k] == x;
                if s.last() != token && k == w.len() - 1 {
                    assert(s[s.len() - 1] == x);
                } else {
                    assert(rest[k] == x);
                    assert(rest.contains(x));
                    let j = choose|j: int| 0 <= j < p.len() && p[j] == x;
                    assert(s[j] == x);
                }
            }
        }
        if s.no_duplicates() {
            assert(p.no_duplicates()) by {
                assert forall|i: int, j: int| 0 <= i < p.len() && 0 <= j < p.len() && i != j implies p[i] != p[j] by {
                    assert(p[i] == s[i] && p[j] == s[j]);
                }
            }
            if s.last() != token {
                assert(!p.contains(s.last())) by {
                    if p.contains(s.last()) {
                        let j = choose|j: int| 0 <= j < p.len() && p[j] == s.last();
                        assert(s[j] == s[s.len() - 1]);
                    }
                }
                assert(!rest.contains(s.last()));
            }
        }
    }
}

/// Adding a list of tokens keeps the accepted list free of repeats.
pub proof fn lemma_with_tokens_no_duplicates(acc: Seq<Addr>, tokens: Seq<Addr>)
    requires
        acc.no_duplicates(),
    ensures
        with_tokens(acc, tokens).no_duplicates(),
    decreases tokens.len(),
{
    if tokens.len() > 0 {
        lemma_with_tokens_no_duplicates(acc, tokens.drop_last());
    }
}

impl ShadeView {
    /// Whether `caller` holds the admin role; the contract must have been
    /// initialized first.
    pub open spec fn admin_check(self, caller: Addr) -> Result<(), ContractError> {
        match self.admin {
            None => Err(ContractError::NotInitialized),
            Some(a) => if a == caller {
                Ok(())
            } else {
                Err(ContractError::NotAuthorized)
            },
        }
    }

    /// The admin check, then the requirement that `token` is accepted.
    pub open spec fn admin_token_check(self, caller: Addr, token: Addr) -> Result<(), ContractError> {
        match self.admin_check(caller) {
            Err(e) => Err(e),
            Ok(_) => if self.accepted_tokens.contains(token) {
                Ok(())
            } else {
                Err(ContractError::TokenNotAccepted)
            },
        }
    }

    /// The state once `token` has been accepted.
    pub open spec fn after_accept_token(self, token: Addr) -> ShadeView {
        ShadeView { accepted_tokens: accept_one(self.accepted_tokens, token), ..self }
    }

    /// The fee in basis points charged on `token`; none set means no fee.
    pub open spec fn fee_of(self, token: Addr) -> i128 {
        if self.token_fees.contains_key(token) {
            self.token_fees[token]
        } else {
            0
        }
    }

    /// The account that receives platform fees: the one set, else the admin.
    pub open spec fn platform_account_of(self) -> Result<Addr, ContractError> {
        match self.platform_account {
            Some(a) => Ok(a),
            None => match self.admin {
                Some(a) => Ok(a),
                None => Err(ContractError::NotInitialized),
            },
        }
    }
    /// The outcome of executing the pending fee change of `token` at `now`:
    /// the new fee, once the time lock has run out.
    pub open spec fn execute_fee_outcome(self, caller: Addr, token: Addr, now: u64) -> Result<i128, ContractError> {
        match self.admin_check(caller) {
            Err(e) => Err(e),
            Ok(_) => if !self.pending_fees.contains_key(token) {
                Err(ContractError::NoPendingFeeUpdate)
            } else if now - self.pending_fees[token].proposed_at < FEE_UPDATE_DELAY {
                Err(ContractError::FeeUpdateTooEarly)
            } else {
                Ok(self.pending_fees[token].fee)
            },
        }
    }

    /// The state once `fee` has been proposed for `token` at `now`.
    pub open spec fn after_propose_fee(self, token: Addr, fee: i128, now: u64) -> ShadeView {
        ShadeView {
            pending_fees: self.pending_fees.insert(token, PendingFee { token, fee, proposed_at: now }),
            ..self
        }
    }

    /// The state once the pending fee of `token` has taken effect.
    pub open spec fn after_execute_fee(self, token: Addr) -> ShadeView {
        ShadeView {
            token_fees: self.token_fees.insert(token, self.pending_fees[token].fee),
            pending_fees: self.pending_fees.remove(token),
            ..self
        }
    }

    /// The outcome of `new_admin` accepting the admin role: the previous admin.
    pub open spec fn accept_admin_outcome(self, new_admin: Addr) -> Result<Addr, ContractError> {
        match self.pending_admin {
            None => Err(ContractError::NotAuthorized),
            Some(p) => if p != new_admin {
                Err(ContractError::NotAuthorized)
            } else {
                match self.admin {
                    None => Err(ContractError::NotInitialized),
                    Some(a) => Ok(a),
                }
            },
        }
    }

    /// The state once `new_admin` has taken over the admin role.
    pub open spec fn after_accept_admin(self, new_admin: Addr) -> ShadeView {
        ShadeView { admin: Some(new_admin), pending_admin: None, ..self }
    }
}

impl ShadeState {
    /// Stores the first admin of the contract.
    pub fn initialize(&mut self, admin: Addr) -> (r: Result<(), ContractError>)
        ensures
            r == (if old(self)@.admin is Some {
                Err::<(), ContractError>(ContractError::AlreadyInitialized)
            } else {
                Ok(())
            }),
            final(self)@ == (if r is Ok {
                ShadeView { admin: Some(admin), ..old(self)@ }
            } else {
                old(self)@
            }),
    {
        if self.admin.is_some() {
            return Err(ContractError::AlreadyInitialized);
        }
        self.admin = Some(admin);
        Ok(())
    }

    /// Checks that `caller` is the admin.
    pub fn assert_admin(&self, caller: Addr) -> (r: Result<(), ContractError>)
        ensures
            r == self@.admin_check(caller),
    {
        match self.admin {
            None => Err(ContractError::NotInitialized),
            Some(a) => if a == caller {
                Ok(())
            } else {
                Err(ContractError::NotAuthorized)
            },
        }
    }

    /// The tokens the contract accepts, in the order they were added.
    pub fn get_accepted_tokens(&self) -> (tokens: TokenList)
        ensures
            tokens@ == self@.accepted_tokens,
    {
        self.accepted_tokens.duplicate()
    }

    /// Whether `token` is accepted.
    pub fn is_accepted_token(&self, token: Addr) -> (b: bool)
        ensures
            b == self@.accepted_tokens.contains(token),
    {
        contains_token(&self.accepted_tokens, token)
    }

    /// Adds `token` to the accepted tokens unless it is there already; the
    /// result tells whether it was added.
    pub fn add_accepted_token(&mut self, admin: Addr, token: Addr) -> (r: Result<bool, ContractError>)
        requires
            !old(self)@.accepted_tokens.contains(token) ==> old(self)@.accepted_tokens.len() < u32::MAX,
        ensures
            r == (match old(self)@.admin_check(admin) {
                Err(e) => Err::<bool, ContractError>(e),
                Ok(_) => Ok(!old(self)@.accepted_tokens.contains(token)),
            }),
            final(self)@ == (if r is Ok {
                old(self)@.after_accept_token(token)
            } else {
                old(self)@
            }),
            old(self)@.wf() ==> final(self)@.wf(),
    {
        self.assert_admin(admin)?;
        if !contains_token(&self.accepted_tokens, token) {
            self.accepted_tokens.push(token);
            Ok(true)
        } else {
            Ok(false)
        }
    }

    /// Adds each of `tokens` not yet accepted, in order; the result lists the
    /// tokens that were added.
    pub fn add_accepted_tokens(&mut self, admin: Addr, tokens: &TokenList) -> (r: Result<Vec<Addr>, ContractError>)
        requires
            with_tokens(old(self)@.accepted_tokens, tokens@).len() <= u32::MAX,
        ensures
            match old(self)@.admin_check(admin) {
                Err(e) => r == Err::<Vec<Addr>, ContractError>(e) && final(self)@ == old(self)@,
                Ok(_) => r is Ok && {
                    let added = r->Ok_0@;
                    let acc = with_tokens(old(self)@.accepted_tokens, tokens@);
                    &&& final(self)@ == (ShadeView { accepted_tokens: acc, ..old(self)@ })
                    &&& acc == old(self)@.accepted_tokens + added
                },
            },
            old(self)@.wf() ==> final(self)@.wf(),
    {
        self.assert_admin(admin)?;
        let ghost old_acc = self@.accepted_tokens;
        let ghost ts = tokens@;
        let mut added: Vec<Addr> = Vec::new();
        let n = tokens.len();
        let mut i: u32 = 0;
        while i < n
            invariant
                n == ts.len(),
                ts == tokens@,
                with_tokens(old_acc, ts).len() <= u32::MAX,
                0 <= i <= n,
                self@.accepted_tokens == with_tokens(old_acc, ts.take(i as int)),
                self@.accepted_tokens == old_acc + added@,
                self@ == (ShadeView { accepted_tokens: self@.accepted_tokens, ..old(self)@ }),
            decreases n - i,
        {
            let t = tokens.get(i);
            proof {
                assert(ts.take(i + 1).drop_last() =~= ts.take(i as int));
                lemma_with_tokens_grows(old_acc, ts, i + 1);
            }
            if !contains_token(&self.accepted_tokens, t) {
                self.accepted_tokens.push(t);
                added.push(t);
                proof {
                    assert(self@.accepted_tokens =~= old_acc + added@);
                }
            }
            i = i + 1;
        }
        proof {
            assert(ts.take(n as int) =~= ts);
            if old(self)@.wf() {
                lemma_with_tokens_no_duplicates(old_acc, ts);
            }
        }
        Ok(added)
    }

    /// Whether accepting `tokens` keeps the accepted list within the host's
    /// vector length.
    pub fn accepted_tokens_fit(&self, tokens: &TokenList) -> (b: bool)
        ensures
            b == (with_tokens(self@.accepted_tokens, tokens@).len() <= u32::MAX),
    {
        let ghost acc = self@.accepted_tokens;
        let ghost ts = tokens@;
        let mut fresh: Vec<Addr> = Vec::new();
        let mut count: u64 = self.accepted_tokens.len() as u64;
        let n = tokens.len();
        let mut i: u32 = 0;
        while i < n
            invariant
                n == ts.len(),
                ts == tokens@,
                acc == self@.accepted_tokens,
                acc.len() <= u32::MAX,
                0 <= i <= n,
                with_tokens(acc, ts.take(i as int)) == acc + fresh@,
                count == acc.len() + fresh@.len(),
                fresh@.len() <= i,
            decreases n - i,
        {
            let t = tokens.get(i);
            proof {
                assert(ts.take(i + 1).drop_last() =~= ts.take(i as int));
            }
            let known = contains_token(&self.accepted_tokens, t) || contains_std(&fresh, t);
            proof {
                let before = acc + fresh@;
                assert(before.contains(t) <==> (acc.contains(t) || fresh@.contains(t))) by {
                    if before.contains(t) {
                        let k = choose|k: int| 0 <= k < before.len() && before[k] == t;
                        if k >= acc.len() {
                            assert(fresh@[k - acc.len()] == t);
                        }
                    }
                    if acc.contains(t) {
                        let k = choose|k: int| 0 <= k < acc.len() && acc[k] == t;
                        assert(before[k] == t);
                    }
                    if fresh@.contains(t) {
                        let k = choose|k: int| 0 <= k < fresh@.len() && fresh@[k] == t;
                        assert(before[acc.len() + k] == t);
                    }
                }
            }
            if !known {
                fresh.push(t);
                count = count + 1;
                proof {
                    assert(acc + fresh@ =~= (acc + fresh@.drop_last()).push(t));
                }
            }
            i = i + 1;
        }
        proof {
            assert(ts.take(n as int) =~= ts);
        }
        count <= 0xFFFF_FFFF
    }

    /// Accepts `tokens` as [`ShadeState::add_accepted_tokens`] does when the
    /// accepted list stays within the host's vector length; otherwise does
    /// nothing and gives `None`.
    pub fn add_accepted_tokens_within_limit(&mut self, admin: Addr, tokens: &TokenList) -> (r: Option<Result<Vec<Addr>, ContractError>>)
        ensures
            r is None <==> with_tokens(old(self)@.accepted_tokens, tokens@).len() > u32::MAX,
            r is None ==> final(self)@ == old(self)@,
            r is Some ==> match old(self)@.admin_check(admin) {
                Err(e) => r == Some(Err::<Vec<Addr>, ContractError>(e)) && final(self)@ == old(self)@,
                Ok(_) => r->Some_0 is Ok && {
                    let added = r->Some_0->Ok_0@;
                    let acc = with_tokens(old(self)@.accepted_tokens, tokens@);
                    &&& final(self)@ == (ShadeView { accepted_tokens: acc, ..old(self)@ })
                    &&& acc == old(self)@.accepted_tokens + added
                },
            },
    {
        if self.accepted_tokens_fit(tokens) {
            Some(self.add_accepted_tokens(admin, tokens))
        } else {
            None
        }
    }

    /// Takes `token` out of the accepted tokens; the result tells whether it
    /// had been accepted.
    pub fn remove_accepted_token(&mut self, env: &Env, admin: Addr, token: Addr) -> (r: Result<bool, ContractError>)
        ensures
            r == (match old(self)@.admin_check(admin) {
                Err(e) => Err::<bool, ContractError>(e),
                Ok(_) => Ok(old(self)@.accepted_tokens.contains(token)),
            }),
            final(self)@ == (if r == Ok::<bool, ContractError>(true) {
                ShadeView { accepted_tokens: without_token(old(self)@.accepted_tokens, token), ..old(self)@ }
            } else {
                old(self)@
            }),
            old(self)@.wf() ==> final(self)@.wf(),
    {
        self.assert_admin(admin)?;
        let ghost s = self@.accepted_tokens;
        let n = self.accepted_tokens.len();
        let mut updated = TokenList::new(env);
        let mut removed = false;
        let mut i: u32 = 0;
        while i < n
            invariant
                n == s.len(),
                s == self@.accepted_tokens,
                self@ == old(self)@,
                0 <= i <= n,
                updated@ == without_token(s.take(i as int), token),
                removed == s.take(i as int).contains(token),
            decreases n - i,
        {
            let t = self.accepted_tokens.get(i);
            proof {
                assert(s.take(i + 1).drop_last() =~= s.take(i as int));
                assert(s.take(i + 1).last() == t);
                let pre = s.take(i + 1);
                let cur = s.take(i as int);
                lemma_without_token(cur, token);
                assert(pre.contains(token) <==> (cur.contains(token) || t == token)) by {
                    if pre.contains(token) {
                        let j = choose|j: int| 0 <= j < pre.len() && pre[j] == token;
                        if j < i {
                            assert(cur[j] == token);
                        }
                    }
                    if cur.contains(token) {
                        let j = choose|j: int| 0 <= j < cur.len() && cur[j] == token;
                        assert(pre[j] == token);
                    }
                    if t == token {
                        assert(pre[i as int] == token);
                    }
                }
            }
            if t == token {
                removed = true;
            } else {
                updated.push(t);
            }
            i = i + 1;
        }
        proof {
            assert(s.take(n as int) =~= s);
            lemma_without_token(old(self)@.accepted_tokens, token);
        }
        if removed {
            self.accepted_tokens = updated;
        }
        Ok(removed)
    }

    /// Sets the fee of an accepted token at once.
    pub fn set_fee(&mut self, admin: Addr, token: Addr, fee: i128) -> (r: Result<(), ContractError>)
        ensures
            r == old(self)@.admin_token_check(admin, token),
            final(self)@ == (if r is Ok {
                ShadeView { token_fees: old(self)@.token_fees.insert(token, fee), ..old(self)@ }
            } else {
                old(self)@
            }),
    {
        self.assert_admin(admin)?;
        if !self.is_accepted_token(token) {
            return Err(ContractError::TokenNotAccepted);
        }
        self.token_fees.insert(token, fee);
        Ok(())
    }

    /// The fee in basis points charged on `token`.
    pub fn get_fee(&self, token: Addr) -> (fee: i128)
        ensures
            fee == self@.fee_of(token),
    {
        match self.token_fees.get(&token) {
            Some(f) => *f,
            None => 0,
        }
    }

    /// Records the code that merchant accounts are deployed from.
    pub fn set_account_wasm_hash(&mut self, admin: Addr, wasm_hash: [u8; 32]) -> (r: Result<(), ContractError>)
        ensures
            r == old(self)@.admin_check(admin),
            final(self)@ == (if r is Ok {
                ShadeView { account_wasm_hash: Some(wasm_hash), ..old(self)@ }
            } else {
                old(self)@
            }),
    {
        self.assert_admin(admin)?;
        self.account_wasm_hash = Some(wasm_hash);
        Ok(())
    }

    /// Sets the account that receives platform fees.
    pub fn set_platform_account(&mut self, admin: Addr, account: Addr) -> (r: Result<(), ContractError>)
        ensures
            r == old(self)@.admin_check(admin),
            final(self)@ == (if r is Ok {
                ShadeView { platform_account: Some(account), ..old(self)@ }
            } else {
                old(self)@
            }),
    {
        self.assert_admin(admin)?;
        self.platform_account = Some(account);
        Ok(())
    }

    /// The account that receives platform fees, the admin if none was set.
    pub fn get_platform_account(&self) -> (r: Result<Addr, ContractError>)
        ensures
            r == self@.platform_account_of(),
    {
        match self.platform_account {
            Some(a) => Ok(a),
            None => match self.admin {
                Some(a) => Ok(a),
                None => Err(ContractError::NotInitialized),
            },
        }
    }

    /// Sets the price oracle of an accepted token.
    pub fn set_token_oracle(&mut self, admin: Addr, token: Addr, oracle: OracleConfig) -> (r: Result<(), ContractError>)
        ensures
            r == old(self)@.admin_token_check(admin, token),
            final(self)@ == (if r is Ok {
                ShadeView { token_oracles: old(self)@.token_oracles.insert(token, oracle), ..old(self)@ }
            } else {
                old(self)@
            }),
    {
        self.assert_admin(admin)?;
        if !self.is_accepted_token(token) {
            return Err(ContractError::TokenNotAccepted);
        }
        self.token_oracles.insert(token, oracle);
        Ok(())
    }

    /// The price oracle of `token`.
    pub fn get_token_oracle(&self, token: Addr) -> (r: Result<OracleConfig, ContractError>)
        ensures
            r == (if self@.token_oracles.contains_key(token) {
                Ok::<OracleConfig, ContractError>(self@.token_oracles[token])
            } else {
                Err(ContractError::OracleNotConfigured)
            }),
    {
        match self.token_oracles.get(&token) {
            Some(o) => Ok(*o),
            None => Err(ContractError::OracleNotConfigured),
        }
    }

    /// Proposes a new fee for an accepted token; it takes effect through
    /// [`ShadeState::execute_fee`] once [`FEE_UPDATE_DELAY`] has passed.
    pub fn propose_fee(&mut self, admin: Addr, token: Addr, fee: i128, now: u64) -> (r: Result<(), ContractError>)
        ensures
            r == old(self)@.admin_token_check(admin, token),
            final(self)@ == (if r is Ok {
                old(self)@.after_propose_fee(token, fee, now)
            } else {
                old(self)@
            }),
    {
        self.assert_admin(admin)?;
        if !self.is_accepted_token(token) {
            return Err(ContractError::TokenNotAccepted);
        }
        self.pending_fees.insert(token, PendingFee { token, fee, proposed_at: now });
        Ok(())
    }

    /// Puts the pending fee of `token` into effect if its time lock has run
    /// out; the result is the fee now in force.
    pub fn execute_fee(&mut self, admin: Addr, token: Addr, now: u64) -> (r: Result<i128, ContractError>)
        requires
            old(self)@.admin_check(admin) is Ok && old(self)@.pending_fees.contains_key(token)
                ==> old(self)@.pending_fees[token].proposed_at <= now,
        ensures
            r == old(self)@.execute_fee_outcome(admin, token, now),
            final(self)@ == (if r is Ok {
                old(self)@.after_execute_fee(token)
            } else {
                old(self)@
            }),
    {
        self.assert_admin(admin)?;
        let pending = match self.pending_fees.get(&token) {
            Some(p) => *p,
            None => return Err(ContractError::NoPendingFeeUpdate),
        };
        let elapsed = now - pending.proposed_at;
        if elapsed < FEE_UPDATE_DELAY {
            return Err(ContractError::FeeUpdateTooEarly);
        }
        self.token_fees.insert(token, pending.fee);
        self.pending_fees.remove(&token);
        Ok(pending.fee)
    }

    /// The fee change waiting on `token`.
    pub fn get_pending_fee(&self, token: Addr) -> (r: Result<PendingFee, ContractError>)
        ensures
            r == (if self@.pending_fees.contains_key(token) {
                Ok::<PendingFee, ContractError>(self@.pending_fees[token])
            } else {
                Err(ContractError::NoPendingFeeUpdate)
            }),
    {
        match self.pending_fees.get(&token) {
            Some(p) => Ok(*p),
            None => Err(ContractError::NoPendingFeeUpdate),
        }
    }

    /// Names `new_admin` as the admin's successor; the role passes when the
    /// successor accepts it.
    pub fn propose_admin_transfer(&mut self, admin: Addr, new_admin: Addr) -> (r: Result<(), ContractError>)
        ensures
            r == old(self)@.admin_check(admin),
            final(self)@ == (if r is Ok {
                ShadeView { pending_admin: Some(new_admin), ..old(self)@ }
            } else {
                old(self)@
            }),
    {
        self.assert_admin(admin)?;
        self.pending_admin = Some(new_admin);
        Ok(())
    }

    /// The proposed successor takes over the admin role; the result is the
    /// previous admin.
    pub fn accept_admin_transfer(&mut self, new_admin: Addr) -> (r: Result<Addr, ContractError>)
        ensures
            r == old(self)@.accept_admin_outcome(new_admin),
            final(self)@ == (if r is Ok {
                old(self)@.after_accept_admin(new_admin)
            } else {
                old(self)@
            }),
    {
        match self.pending_admin {
            None => return Err(ContractError::NotAuthorized),
            Some(p) => if p != new_admin {
                return Err(ContractError::NotAuthorized);
            },
        }
        let old_admin = match self.admin {
            None => return Err(ContractError::NotInitialized),
            Some(a) => a,
        };
        self.admin = Some(new_admin);
        self.pending_admin = None;
        Ok(old_admin)
    }
}

/// Whether `token` occurs in a plain list of addresses.
fn contains_std(tokens: &Vec<Addr>, token: Addr) -> (b: bool)
    ensures
        b == tokens@.contains(token),
{
    let n = tokens.len();
    let mut i: usize = 0;
    while i < n
        invariant
            n == tokens@.len(),
            0 <= i <= n,
            forall|j: int| 0 <= j < i ==> tokens@[j] != token,
        decreases n - i,
    {
        if tokens[i] == token {
            return true;
        }
        i = i + 1;
    }
    false
}

/// Whether `token` occurs in `tokens`.
fn contains_token(tokens: &TokenList, token: Addr) -> (b: bool)
    ensures
        b == tokens@.contains(token),
{
    let n = tokens.len();
    let mut i: u32 = 0;
    while i < n
        invariant
            n == tokens@.len(),
            0 <= i <= n,
            forall|j: int| 0 <= j < i ==> tokens@[j] != token,
        decreases n - i,
    {
        if tokens.get(i) == token {
            return true;
        }
        i = i + 1;
    }
    false
}

} // verus!
