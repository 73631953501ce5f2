//! Properties of the contracts that span several operations.

use vstd::prelude::*;
use crate::admin::{accept_one, lemma_with_tokens_no_duplicates, lemma_without_token, with_tokens, without_token, FEE_UPDATE_DELAY};
use crate::analytics::{discount_percentage, discounted_fee, trunc_div, volume_total};
use crate::errors::ContractError;
use crate::factory::{refs_up_to, EventRef, FactoryView};
use crate::state::ShadeView;
use crate::types::{Addr, Event, MerchantAnalytics};

verus! {

/// The factory lists every reference it has handed out, in the order of
/// their ids: the `i`-th entry is reference `i + 1`.
pub proof fn lemma_all_refs_in_order(v: FactoryView)
    requires
        v.wf(),
    ensures
        refs_up_to(v.event_refs, v.event_ref_count as nat).len() == v.event_ref_count,
        forall|i: int| 0 <= i < v.event_ref_count ==> {
            &&& #[trigger] refs_up_to(v.event_refs, v.event_ref_count as nat)[i] == v.event_refs[(i + 1) as u64]
            &&& refs_up_to(v.event_refs, v.event_ref_count as nat)[i].ref_id == i + 1
        },
{
    lemma_refs_up_to(v, v.event_ref_count as nat);
}

proof fn lemma_refs_up_to(v: FactoryView, n: nat)
    requires
        v.wf(),
        n <= v.event_ref_count,
    ensures
        refs_up_to(v.event_refs, n).len() == n,
        forall|i: int| 0 <= i < n ==> {
            &&& #[trigger] refs_up_to(v.event_refs, n)[i] == v.event_refs[(i + 1) as u64]
            &&& refs_up_to(v.event_refs, n)[i].ref_id == i + 1
        },
    decreases n,
{
    if n > 0 {
        lemma_refs_up_to(v, (n - 1) as nat);
        assert(v.event_refs.contains_key(n as u64));
    }
}

/// Recording a deployment stores the new reference under the next id, keeps
/// the earlier ones, and appends it to the list of all references.
pub proof fn lemma_record_appends(v: FactoryView, organizer: Addr, contract: Addr, now: u64)
    requires
        v.wf(),
        v.event_ref_count < u64::MAX,
    ensures
        ({
            let r = v.next_ref(organizer, contract, now);
            let w = v.after_record(organizer, contract, now);
            &&& w.wf()
            &&& w.event_ref_count == v.event_ref_count + 1
            &&& w.event_refs.contains_key(r.ref_id)
            &&& w.event_refs[r.ref_id] == r
            &&& forall|id: u64| #[trigger] v.event_refs.contains_key(id) ==> w.event_refs[id] == v.event_refs[id]
            &&& refs_up_to(w.event_refs, w.event_ref_count as nat) == refs_up_to(v.event_refs, v.event_ref_count as nat).push(r)
        }),
{
    let r = v.next_ref(organizer, contract, now);
    let w = v.after_record(organizer, contract, now);
    lemma_refs_up_to_unchanged(v.event_refs, w.event_refs, v.event_ref_count as nat);
}

proof fn lemma_refs_up_to_unchanged(a: Map<u64, EventRef>, b: Map<u64, EventRef>, n: nat)
    requires
        n <= u64::MAX,
        forall|id: u64| 1 <= id <= n ==> (#[trigger] a.contains_key(id) <==> b.contains_key(id)),
        forall|id: u64| 1 <= id <= n && #[trigger] a.contains_key(id) ==> a[id] == b[id],
    ensures
        refs_up_to(a, n) == refs_up_to(b, n),
    decreases n,
{
    if n > 0 {
        lemma_refs_up_to_unchanged(a, b, (n - 1) as nat);
        assert(a.contains_key(n as u64) <==> b.contains_key(n as u64));
    }
}

/// A proposed fee leaves the fee in force unchanged; executing it succeeds
/// exactly once [`FEE_UPDATE_DELAY`] seconds have passed, and then the
/// proposed fee is in force and nothing is pending any more.
pub proof fn lemma_fee_time_lock(v: ShadeView, admin: Addr, token: Addr, fee: i128, proposed_at: u64, now: u64)
    requires
        v.admin == Some(admin),
        v.accepted_tokens.contains(token),
        proposed_at <= now,
    ensures
        v.admin_token_check(admin, token) is Ok,
        ({
            let p = v.after_propose_fee(token, fee, proposed_at);
            &&& p.fee_of(token) == v.fee_of(token)
            &&& p.execute_fee_outcome(admin, token, now) == if now - proposed_at >= FEE_UPDATE_DELAY {
                Ok::<i128, ContractError>(fee)
            } else {
                Err(ContractError::FeeUpdateTooEarly)
            }
            &&& now - proposed_at >= FEE_UPDATE_DELAY ==> {
                &&& p.after_execute_fee(token).fee_of(token) == fee
                &&& !p.after_execute_fee(token).pending_fees.contains_key(token)
            }
        }),
{
}

/// Executing a fee change with nothing proposed for the token fails and
/// changes nothing.
pub proof fn lemma_fee_needs_proposal(v: ShadeView, admin: Addr, token: Addr, now: u64)
    requires
        v.admin == Some(admin),
        !v.pending_fees.contains_key(token),
    ensures
        v.execute_fee_outcome(admin, token, now) == Err::<i128, ContractError>(ContractError::NoPendingFeeUpdate),
{
}

/// Once the admin names a successor, the successor, and only the successor,
/// can take over the role; the pending proposal is then cleared, and the
/// previous admin (unless it named itself) no longer passes the admin check.
pub proof fn lemma_admin_hand_over(v: ShadeView, admin: Addr, successor: Addr, other: Addr)
    requires
        v.admin == Some(admin),
        other != successor,
    ensures
        ({
            let p = ShadeView { pending_admin: Some(successor), ..v };
            &&& v.admin_check(admin) is Ok
            &&& p.accept_admin_outcome(successor) == Ok::<Addr, ContractError>(admin)
            &&& p.accept_admin_outcome(other) == Err::<Addr, ContractError>(ContractError::NotAuthorized)
            &&& p.after_accept_admin(successor).admin == Some(successor)
            &&& p.after_accept_admin(successor).pending_admin is None
            &&& p.after_accept_admin(successor).admin_check(successor) is Ok
            &&& p.after_accept_admin(successor).admin_check(admin) is Err || admin == successor
        }),
{
}

/// After adding tokens, each of them is accepted, every token accepted
/// before still is, and adding the same tokens again changes nothing.
pub proof fn lemma_with_tokens_accepts(acc: Seq<Addr>, tokens: Seq<Addr>)
    ensures
        forall|t: Addr| #[trigger] tokens.contains(t) ==> with_tokens(acc, tokens).contains(t),
        forall|t: Addr| #[trigger] acc.contains(t) ==> with_tokens(acc, tokens).contains(t),
        with_tokens(with_tokens(acc, tokens), tokens) == with_tokens(acc, tokens),
    decreases tokens.len(),
{
    if tokens.len() > 0 {
        let p = tokens.drop_last();
        lemma_with_tokens_accepts(acc, p);
        let before = with_tokens(acc, p);
        let after = with_tokens(acc, tokens);
        assert forall|t: Addr| #[trigger] before.contains(t) implies after.contains(t) by {
            if !before.contains(tokens.last()) {
                let k = choose|k: int| 0 <= k < before.len() && before[k] == t;
                assert(after[k] == t);
            }
        }
        assert(after.contains(tokens.last())) by {
            if !before.contains(tokens.last()) {
                assert(after[after.len() - 1] == tokens.last());
            }
        }
        assert forall|t: Addr| #[trigger] tokens.contains(t) implies after.contains(t) by {
            let k = choose|k: int| 0 <= k < tokens.len() && tokens[k] == t;
            if k < tokens.len() - 1 {
                assert(p[k] == t);
                assert(p.contains(t));
                assert(before.contains(t));
            }
        }
        lemma_with_tokens_absorbs(after, tokens);
    }
}

/// Adding tokens that are all accepted already changes nothing.
proof fn lemma_with_tokens_absorbs(acc: Seq<Addr>, tokens: Seq<Addr>)
    requires
        forall|t: Addr| #[trigger] tokens.contains(t) ==> acc.contains(t),
    ensures
        with_tokens(acc, tokens) == acc,
    decreases tokens.len(),
{
    if tokens.len() > 0 {
        let p = tokens.drop_last();
        assert forall|t: Addr| #[trigger] p.contains(t) implies acc.contains(t) by {
            let k = choose|k: int| 0 <= k < p.len() && p[k] == t;
            assert(tokens[k] == t);
            assert(tokens.contains(t));
        }
        lemma_with_tokens_absorbs(acc, p);
        assert(tokens.contains(tokens.last()));
    }
}

/// For a fee that is not negative, the volume discount never raises the fee,
/// never takes off more than half, and a larger volume never pays more.
pub proof fn lemma_discount_monotone(fee_bps: int, volume: int, larger_volume: int)
    requires
        0 <= fee_bps,
        volume <= larger_volume,
    ensures
        0 <= discounted_fee(fee_bps, volume) <= fee_bps,
        fee_bps / 2 <= discounted_fee(fee_bps, volume),
        discounted_fee(fee_bps, larger_volume) <= discounted_fee(fee_bps, volume),
{
    let d1 = discount_percentage(volume);
    let d2 = discount_percentage(larger_volume);
    assert(d1 <= d2);
    assert(0 <= (fee_bps * (100 - d1)) / 100 <= fee_bps) by (nonlinear_arith)
        requires
            0 <= fee_bps,
            0 <= d1 <= 50,
    ;
    assert(fee_bps / 2 <= (fee_bps * (100 - d1)) / 100) by (nonlinear_arith)
        requires
            0 <= fee_bps,
            0 <= d1 <= 50,
    ;
    assert((fee_bps * (100 - d2)) / 100 <= (fee_bps * (100 - d1)) / 100) by (nonlinear_arith)
        requires
            0 <= fee_bps,
            0 <= d1 <= d2 <= 50,
    ;
    assert(fee_bps * (100 - d1) >= 0) by (nonlinear_arith)
        requires
            0 <= fee_bps,
            0 <= d1 <= 50,
    ;
    assert(fee_bps * (100 - d2) >= 0) by (nonlinear_arith)
        requires
            0 <= fee_bps,
            0 <= d2 <= 50,
    ;
}

/// With no negative volumes, an accepted token's market share lies between
/// 0 and 10,000 basis points.
pub proof fn lemma_market_share_bounded(v: ShadeView, token: Addr)
    requires
        v.accepted_tokens.contains(token),
        forall|t: Addr| #[trigger] v.accepted_tokens.contains(t) ==> v.token_volume_of(t) >= 0,
    ensures
        0 <= v.market_share_of(token) <= 10_000,
{
    let entries = v.volume_entries(v.accepted_tokens);
    let n = entries.len() as int;
    let k = choose|k: int| 0 <= k < v.accepted_tokens.len() && v.accepted_tokens[k] == token;
    assert forall|i: int| 0 <= i < n implies #[trigger] entries[i].1 >= 0 by {
        assert(v.accepted_tokens.contains(v.accepted_tokens[i]));
    }
    lemma_total_bounds_entry(entries, n, k);
    let tv = v.token_volume_of(token) as int;
    let total = volume_total(entries, n);
    assert(entries[k].1 == tv);
    if tv != 0 && total != 0 {
        assert(0 <= tv * 10_000 / total <= 10_000) by (nonlinear_arith)
            requires
                0 < tv <= total,
        ;
        assert(trunc_div(tv * 10_000, total) == tv * 10_000 / total);
    }
}

proof fn lemma_total_bounds_entry(entries: Seq<(Addr, i128)>, n: int, k: int)
    requires
        0 <= k < n <= entries.len(),
        forall|i: int| 0 <= i < entries.len() ==> #[trigger] entries[i].1 >= 0,
    ensures
        volume_total(entries, n) >= entries[k].1 >= 0,
    decreases n,
{
    lemma_total_nonneg(entries, n - 1);
    if k < n - 1 {
        lemma_total_bounds_entry(entries, n - 1, k);
    }
}

proof fn lemma_total_nonneg(entries: Seq<(Addr, i128)>, n: int)
    requires
        n <= entries.len(),
        forall|i: int| 0 <= i < entries.len() ==> #[trigger] entries[i].1 >= 0,
    ensures
        volume_total(entries, n) >= 0,
    decreases n,
{
    if n > 0 {
        lemma_total_nonneg(entries, n - 1);
    }
}

/// The volume kept on its own for a merchant and token always agrees with
/// the merchant's totals for that token.
pub open spec fn volumes_agree(v: ShadeView) -> bool {
    forall|k: (Addr, Addr)| #[trigger] v.merchant_analytics.contains_key(k) ==> {
        &&& v.merchant_volumes.contains_key(k)
        &&& v.merchant_volumes[k] == v.merchant_analytics[k].total_volume
    }
}

/// Recording a payment raises the merchant's volume in the token, the
/// merchant's total, and the token's volume by the amount paid, counts one
/// more transaction each, and keeps the merchant volumes in agreement with
/// the merchant totals.
pub proof fn lemma_payment_adds_volume(v: ShadeView, merchant: Addr, token: Addr, volume_amount: i128, fee_amount: i128, now: u64)
    requires
        v.payment_fits(merchant, token, volume_amount, fee_amount),
    ensures
        ({
            let w = v.after_payment(merchant, token, volume_amount, fee_amount, now);
            &&& w.merchant_volume_of(merchant, token) == v.merchant_volume_of(merchant, token) + volume_amount
            &&& w.summary_of(merchant).total_volume == v.summary_of(merchant).total_volume + volume_amount
            &&& w.token_volume_of(token) == v.token_analytics_of(token).total_volume + volume_amount
            &&& w.merchant_analytics_of(merchant, token).transaction_count == v.merchant_analytics_of(merchant, token).transaction_count + 1
            &&& w.summary_of(merchant).transaction_count == v.summary_of(merchant).transaction_count + 1
            &&& w.token_analytics_of(token).transaction_count == v.token_analytics_of(token).transaction_count + 1
            &&& volumes_agree(v) ==> volumes_agree(w)
        }),
{
}

/// The state after the admin accepts `tokens` one call at a time.
pub open spec fn accept_one_by_one(v: ShadeView, admin: Addr, tokens: Seq<Addr>) -> ShadeView
    decreases tokens.len(),
{
    if tokens.len() == 0 {
        v
    } else {
        let w = accept_one_by_one(v, admin, tokens.drop_last());
        if w.admin_check(admin) is Ok {
            w.after_accept_token(tokens.last())
        } else {
            w
        }
    }
}

/// Accepting a batch of tokens in one call leaves the same state, and so the
/// same accepted-token list, as accepting them one call at a time.
pub proof fn lemma_batch_accept_is_one_by_one(v: ShadeView, admin: Addr, tokens: Seq<Addr>)
    requires
        v.admin_check(admin) is Ok,
    ensures
        accept_one_by_one(v, admin, tokens) == (ShadeView { accepted_tokens: with_tokens(v.accepted_tokens, tokens), ..v }),
    decreases tokens.len(),
{
    if tokens.len() > 0 {
        lemma_batch_accept_is_one_by_one(v, admin, tokens.drop_last());
        let before = with_tokens(v.accepted_tokens, tokens.drop_last());
        assert(accept_one(before, tokens.last()) == with_tokens(v.accepted_tokens, tokens));
    }
}

/// Accepting a token: it is accepted afterwards, every token accepted before
/// still is, a new token goes at the end, an accepted one changes nothing,
/// and accepting it a second time changes nothing either.
pub proof fn lemma_accept_one(acc: Seq<Addr>, token: Addr)
    ensures
        accept_one(acc, token).contains(token),
        forall|t: Addr| #[trigger] acc.contains(t) ==> accept_one(acc, token).contains(t),
        !acc.contains(token) ==> accept_one(acc, token) == acc.push(token),
        acc.contains(token) ==> accept_one(acc, token) == acc,
        accept_one(accept_one(acc, token), token) == accept_one(acc, token),
{
    if !acc.contains(token) {
        assert(acc.push(token)[acc.len() as int] == token);
        assert forall|t: Addr| #[trigger] acc.contains(t) implies acc.push(token).contains(t) by {
            let k = choose|k: int| 0 <= k < acc.len() && acc[k] == t;
            assert(acc.push(token)[k] == t);
        }
    }
}

/// Taking out a token that is not in the list leaves the list as it was.
proof fn lemma_without_absent(s: Seq<Addr>, token: Addr)
    requires
        !s.contains(token),
    ensures
        without_token(s, token) == s,
    decreases s.len(),
{
    if s.len() > 0 {
        let p = s.drop_last();
        assert(!p.contains(token)) by {
            if p.contains(token) {
                let k = choose|k: int| 0 <= k < p.len() && p[k] == token;
                assert(s[k] == token);
            }
        }
        lemma_without_absent(p, token);
        assert(s[s.len() - 1] != token);
        assert(p.push(s.last()) =~= s);
    }
}

/// Accepting a token that was not accepted and then removing it gives back
/// the accepted-token list, and the whole state, as they were.
pub proof fn lemma_accept_then_remove(v: ShadeView, token: Addr)
    requires
        !v.accepted_tokens.contains(token),
    ensures
        ({
            let w = v.after_accept_token(token);
            &&& w.accepted_tokens.contains(token)
            &&& without_token(w.accepted_tokens, token) == v.accepted_tokens
            &&& (ShadeView { accepted_tokens: without_token(w.accepted_tokens, token), ..w }) == v
        }),
{
    let acc = v.accepted_tokens;
    lemma_accept_one(acc, token);
    lemma_without_absent(acc, token);
    let pushed = acc.push(token);
    assert(pushed.drop_last() =~= acc);
    assert(pushed.last() == token);
}

/// No operation on the accepted-token list brings in a repeat: accepting one
/// token, accepting a batch, and removing a token all keep a list without
/// repeats free of them.
pub proof fn lemma_token_lists_stay_distinct(acc: Seq<Addr>, token: Addr, tokens: Seq<Addr>)
    requires
        acc.no_duplicates(),
    ensures
        accept_one(acc, token).no_duplicates(),
        with_tokens(acc, tokens).no_duplicates(),
        without_token(acc, token).no_duplicates(),
{
    lemma_with_tokens_no_duplicates(acc, tokens);
    lemma_without_token(acc, token);
}

/// Ticket sales: in a well-formed state no event has sold more seats than it
/// has. A purchase of an unknown event is answered `InvoiceNotFound`; one of
/// a sold-out event `InvalidAmount`; any other raises that event's count of
/// sold tickets by one, leaves every other field of it and every other event
/// as they were, and keeps the state well formed.
pub proof fn lemma_ticket_sales(v: ShadeView, event_id: u64)
    requires
        v.wf(),
    ensures
        forall|id: u64| #[trigger] v.events.contains_key(id) ==> v.events[id].sold <= v.events[id].capacity,
        !v.events.contains_key(event_id) ==> v.purchase_outcome(event_id) == Err::<(), ContractError>(ContractError::InvoiceNotFound),
        v.events.contains_key(event_id) && v.events[event_id].sold == v.events[event_id].capacity
            ==> v.purchase_outcome(event_id) == Err::<(), ContractError>(ContractError::InvalidAmount),
        v.purchase_outcome(event_id) is Ok ==> {
            let w = v.after_purchase(event_id);
            &&& w.wf()
            &&& w.events.dom() == v.events.dom()
            &&& w.events[event_id] == (Event { sold: (v.events[event_id].sold + 1) as u32, ..v.events[event_id] })
            &&& forall|id: u64| id != event_id && #[trigger] v.events.contains_key(id) ==> w.events[id] == v.events[id]
            &&& (ShadeView { events: v.events, ..w }) == v
        },
{
    if v.purchase_outcome(event_id) is Ok {
        let w = v.after_purchase(event_id);
        assert(w.events.dom() =~= v.events.dom());
        assert(v.events.contains_key(event_id));
    }
}

/// Creating an event: the new event gets the next id, belongs to the
/// merchant, has sold no ticket, the events before it stay as they were,
/// and the state stays well formed.
pub proof fn lemma_create_event(
    v: ShadeView,
    merchant: Addr,
    name: Vec<u8>,
    ticket_price: i128,
    token: Addr,
    capacity: u32,
    now: u64,
)
    requires
        v.wf(),
        v.event_count < u64::MAX,
        v.create_event_outcome(merchant) is Ok,
    ensures
        ({
            let id = (v.event_count + 1) as u64;
            let w = v.after_create_event(merchant, name, ticket_price, token, capacity, now);
            &&& v.create_event_outcome(merchant) == Ok::<u64, ContractError>(id)
            &&& !v.events.contains_key(id)
            &&& w.wf()
            &&& w.events.contains_key(id)
            &&& w.events[id].sold == 0
            &&& w.events[id].capacity == capacity
            &&& w.events[id].merchant_id == v.merchant_ids[merchant]
            &&& forall|e: u64| #[trigger] v.events.contains_key(e) ==> w.events.contains_key(e) && w.events[e] == v.events[e]
        }),
{
}

/// A call that changes merchants or events, with its arguments.
pub enum TicketOp {
    Register { merchant: Addr },
    Create { merchant: Addr, name: Vec<u8>, ticket_price: i128, token: Addr, capacity: u32, now: u64 },
    Purchase { event_id: u64 },
}

/// The state after the call `op` from `v`: the operation's own next state
/// when it succeeds, `v` unchanged when it is refused.
pub open spec fn apply_ticket_op(v: ShadeView, op: TicketOp) -> ShadeView {
    match op {
        TicketOp::Register { merchant } => if v.merchant_ids.contains_key(merchant) {
            v
        } else {
            v.after_register_merchant(merchant)
        },
        TicketOp::Create { merchant, name, ticket_price, token, capacity, now } => if v.create_event_outcome(merchant) is Ok {
            v.after_create_event(merchant, name, ticket_price, token, capacity, now)
        } else {
            v
        },
        TicketOp::Purchase { event_id } => if v.purchase_outcome(event_id) is Ok {
            v.after_purchase(event_id)
        } else {
            v
        },
    }
}

/// The state after the calls `ops` in order, starting from `v`.
pub open spec fn replay_ticket_ops(v: ShadeView, ops: Seq<TicketOp>) -> ShadeView
    decreases ops.len(),
{
    if ops.len() == 0 {
        v
    } else {
        apply_ticket_op(replay_ticket_ops(v, ops.drop_last()), ops.last())
    }
}

/// Whether no call in `ops` runs out of merchant or event ids.
pub open spec fn ticket_ops_fit(v: ShadeView, ops: Seq<TicketOp>) -> bool
    decreases ops.len(),
{
    if ops.len() == 0 {
        true
    } else {
        let w = replay_ticket_ops(v, ops.drop_last());
        &&& ticket_ops_fit(v, ops.drop_last())
        &&& match ops.last() {
            TicketOp::Register { .. } => w.merchant_count < u64::MAX,
            TicketOp::Create { .. } => w.event_count < u64::MAX,
            TicketOp::Purchase { .. } => true,
        }
    }
}

/// Whatever merchants register, events are created and tickets bought from
/// a fresh contract, the state stays well formed, so that no event has sold
/// more tickets than it has seats.
pub proof fn lemma_ticket_ops_keep_seats(ops: Seq<TicketOp>)
    requires
        ticket_ops_fit(ShadeView::empty(), ops),
    ensures
        replay_ticket_ops(ShadeView::empty(), ops).wf(),
        forall|id: u64| #[trigger] replay_ticket_ops(ShadeView::empty(), ops).events.contains_key(id)
            ==> replay_ticket_ops(ShadeView::empty(), ops).events[id].sold <= replay_ticket_ops(ShadeView::empty(), ops).events[id].capacity,
    decreases ops.len(),
{
    if ops.len() > 0 {
        lemma_ticket_ops_keep_seats(ops.drop_last());
        let w = replay_ticket_ops(ShadeView::empty(), ops.drop_last());
        match ops.last() {
            TicketOp::Register { merchant } => {
                if !w.merchant_ids.contains_key(merchant) {
                    lemma_register_keeps_wf(w, merchant);
                }
            },
            TicketOp::Create { merchant, name, ticket_price, token, capacity, now } => {
                if w.create_event_outcome(merchant) is Ok {
                    lemma_create_event(w, merchant, name, ticket_price, token, capacity, now);
                }
            },
            TicketOp::Purchase { event_id } => {
                lemma_ticket_sales(w, event_id);
            },
        }
    }
}

/// Registering a new merchant keeps the state well formed.
proof fn lemma_register_keeps_wf(v: ShadeView, merchant: Addr)
    requires
        v.wf(),
        v.merchant_count < u64::MAX,
        !v.merchant_ids.contains_key(merchant),
    ensures
        v.after_register_merchant(merchant).wf(),
{
}

/// The fee charged on a payment to a merchant depends on the token's fee and
/// on that merchant's own recorded volume in the token, and on nothing else:
/// two states that agree on those charge the same fee, whatever other
/// merchants or tokens have recorded.
pub proof fn lemma_fee_uses_own_volume(v: ShadeView, w: ShadeView, merchant: Addr, token: Addr, amount: i128)
    requires
        v.token_fees == w.token_fees,
        v.merchant_analytics.contains_key((merchant, token)) == w.merchant_analytics.contains_key((merchant, token)),
        v.merchant_analytics.contains_key((merchant, token))
            ==> v.merchant_analytics[(merchant, token)].total_volume == w.merchant_analytics[(merchant, token)].total_volume,
        v.merchant_volumes.contains_key((merchant, token)) == w.merchant_volumes.contains_key((merchant, token)),
        v.merchant_volumes.contains_key((merchant, token))
            ==> v.merchant_volumes[(merchant, token)] == w.merchant_volumes[(merchant, token)],
    ensures
        v.fee_for(merchant, token, amount) == w.fee_for(merchant, token, amount),
        v.fee_fits(merchant, token, amount) == w.fee_fits(merchant, token, amount),
{
}

/// A merchant with no recorded payment in a token pays the token's full fee,
/// `amount * fee / 10_000` rounded toward zero, whatever other merchants have
/// paid in it; with no fee set it pays nothing.
pub proof fn lemma_fee_without_own_payments(v: ShadeView, merchant: Addr, token: Addr, amount: i128)
    requires
        !v.merchant_analytics.contains_key((merchant, token)),
        !v.merchant_volumes.contains_key((merchant, token)),
    ensures
        v.fee_for(merchant, token, amount) == if v.token_fees.contains_key(token) {
            trunc_div(amount * v.token_fees[token], 10_000)
        } else {
            0
        },
{
    if v.token_fees.contains_key(token) && v.token_fees[token] == 0 {
        assert(amount * v.token_fees[token] == 0);
    }
}

/// The volume tiers: a merchant whose own volume in the token is below
/// 10,000 pays the full fee; from 10,000 it pays 90% of the fee rate, from
/// 50,000 75%, from 200,000 50% (each rate rounded toward zero), and the fee
/// is `amount` times that rate over 10,000, rounded toward zero.
pub proof fn lemma_fee_tiers(v: ShadeView, merchant: Addr, token: Addr, amount: i128)
    requires
        v.merchant_analytics.contains_key((merchant, token)),
        v.token_fees.contains_key(token),
    ensures
        ({
            let own = v.merchant_analytics[(merchant, token)].total_volume;
            let bps = v.token_fees[token] as int;
            let fee = v.fee_for(merchant, token, amount);
            &&& own < 10_000 ==> fee == trunc_div(amount * bps, 10_000)
            &&& 10_000 <= own < 50_000 ==> fee == trunc_div(amount * trunc_div(bps * 90, 100), 10_000)
            &&& 50_000 <= own < 200_000 ==> fee == trunc_div(amount * trunc_div(bps * 75, 100), 10_000)
            &&& 200_000 <= own ==> fee == trunc_div(amount * trunc_div(bps * 50, 100), 10_000)
        }),
{
    let bps = v.token_fees[token] as int;
    if bps == 0 {
        assert(amount * bps == 0);
        assert(trunc_div(bps * 90, 100) == 0);
        assert(trunc_div(bps * 75, 100) == 0);
        assert(trunc_div(bps * 50, 100) == 0);
        assert(amount * 0 == 0);
    }
}

/// Recording a payment at `now` stamps `now` as the last update of the
/// merchant's totals in the token, of the merchant's summary over all
/// tokens, and of the token's totals.
pub proof fn lemma_payment_stamps_time(v: ShadeView, merchant: Addr, token: Addr, volume_amount: i128, fee_amount: i128, now: u64)
    ensures
        ({
            let w = v.after_payment(merchant, token, volume_amount, fee_amount, now);
            &&& w.merchant_analytics.contains_key((merchant, token))
            &&& w.merchant_analytics[(merchant, token)].last_updated == now
            &&& w.merchant_summaries.contains_key(merchant)
            &&& w.merchant_summaries[merchant].last_updated == now
            &&& w.token_analytics.contains_key(token)
            &&& w.token_analytics[token].last_updated == now
            &&& w.merchant_analytics_of(merchant, token).last_updated == now
            &&& w.summary_of(merchant).last_updated == now
            &&& w.token_analytics_of(token).last_updated == now
        }),
{
}

/// A ticket of an existing event that still has a free seat can always be
/// bought, whatever its price, and the purchase takes exactly one seat.
pub proof fn lemma_free_seat_sells(v: ShadeView, event_id: u64)
    requires
        v.events.contains_key(event_id),
        v.events[event_id].sold < v.events[event_id].capacity,
    ensures
        v.purchase_outcome(event_id) == Ok::<(), ContractError>(()),
        v.after_purchase(event_id).events.contains_key(event_id),
        v.after_purchase(event_id).events[event_id].sold == v.events[event_id].sold + 1,
        v.after_purchase(event_id).events[event_id].ticket_price == v.events[event_id].ticket_price,
        v.after_purchase(event_id).events[event_id].capacity == v.events[event_id].capacity,
{
}

/// An active registered merchant can always create an event, and the event
/// stored under the new id records exactly the arguments it was created
/// with: its merchant, name, price, token, capacity and date, with no ticket
/// sold.
pub proof fn lemma_created_event_records_arguments(
    v: ShadeView,
    merchant: Addr,
    name: Vec<u8>,
    ticket_price: i128,
    token: Addr,
    capacity: u32,
    now: u64,
)
    requires
        v.merchant_ids.contains_key(merchant),
        v.merchants.contains_key(v.merchant_ids[merchant]),
        v.merchants[v.merchant_ids[merchant]].active,
        v.event_count < u64::MAX,
    ensures
        ({
            let id = (v.event_count + 1) as u64;
            let w = v.after_create_event(merchant, name, ticket_price, token, capacity, now);
            let e = w.events[id];
            &&& v.create_event_outcome(merchant) == Ok::<u64, ContractError>(id)
            &&& w.event_count == id
            &&& w.events.contains_key(id)
            &&& e.id == id
            &&& e.merchant_id == v.merchant_ids[merchant]
            &&& e.name == name
            &&& e.ticket_price == ticket_price
            &&& e.token == token
            &&& e.capacity == capacity
            &&& e.sold == 0
            &&& e.date == now
        }),
{
}

/// Platform fees go to the platform account when one is set, else to the
/// current admin; before initialization there is none. A proposed admin who
/// has not accepted yet changes nothing.
pub proof fn lemma_platform_account(v: ShadeView, pending: Option<Addr>)
    ensures
        v.platform_account matches Some(p) ==> v.platform_account_of() == Ok::<Addr, ContractError>(p),
        v.platform_account is None && v.admin is Some ==> v.platform_account_of() == Ok::<Addr, ContractError>(v.admin->0),
        v.platform_account is None && v.admin is None
            ==> v.platform_account_of() == Err::<Addr, ContractError>(ContractError::NotInitialized),
        (ShadeView { pending_admin: pending, ..v }).platform_account_of() == v.platform_account_of(),
{
}

/// Recording a payment adds its fee to the merchant's fees in the token, to
/// the merchant's fees over all tokens and to the token's fees; the token
/// counts the merchant as one more merchant exactly on the merchant's first
/// payment in it; and the records of every other merchant and token stay as
/// they were.
pub proof fn lemma_payment_adds_fees(v: ShadeView, merchant: Addr, token: Addr, volume_amount: i128, fee_amount: i128, now: u64)
    requires
        v.payment_fits(merchant, token, volume_amount, fee_amount),
    ensures
        ({
            let w = v.after_payment(merchant, token, volume_amount, fee_amount, now);
            &&& w.merchant_analytics_of(merchant, token).total_fees == v.merchant_analytics_of(merchant, token).total_fees + fee_amount
            &&& w.summary_of(merchant).total_fees == v.summary_of(merchant).total_fees + fee_amount
            &&& w.token_analytics_of(token).total_fees == v.token_analytics_of(token).total_fees + fee_amount
            &&& w.token_analytics_of(token).unique_merchants == v.token_analytics_of(token).unique_merchants
                + if v.merchant_analytics_of(merchant, token).transaction_count == 0 { 1int } else { 0int }
            &&& forall|m: Addr, t: Addr| (m, t) != (merchant, token)
                ==> #[trigger] w.merchant_analytics_of(m, t) == v.merchant_analytics_of(m, t)
            &&& forall|m: Addr| m != merchant ==> #[trigger] w.summary_of(m) == v.summary_of(m)
            &&& forall|t: Addr| t != token ==> #[trigger] w.token_analytics_of(t) == v.token_analytics_of(t)
        }),
{
}

/// The sum of `g` over `keys`.
pub open spec fn sum_over(keys: Seq<Addr>, g: spec_fn(Addr) -> int) -> int
    decreases keys.len(),
{
    if keys.len() == 0 {
        0
    } else {
        sum_over(keys.drop_last(), g) + g(keys.last())
    }
}

/// Sums of functions that agree on the keys are equal.
proof fn lemma_sum_congruent(keys: Seq<Addr>, g1: spec_fn(Addr) -> int, g2: spec_fn(Addr) -> int)
    requires
        forall|k: Addr| #[trigger] keys.contains(k) ==> g1(k) == g2(k),
    ensures
        sum_over(keys, g1) == sum_over(keys, g2),
    decreases keys.len(),
{
    if keys.len() > 0 {
        let p = keys.drop_last();
        assert forall|k: Addr| #[trigger] p.contains(k) implies g1(k) == g2(k) by {
            let i = choose|i: int| 0 <= i < p.len() && p[i] == k;
            assert(keys[i] == k);
            assert(keys.contains(k));
        }
        lemma_sum_congruent(p, g1, g2);
        assert(keys.contains(keys.last()));
    }
}

/// Changing a function at one key, which occurs once, changes the sum by
/// the same amount.
proof fn lemma_sum_update(keys: Seq<Addr>, g1: spec_fn(Addr) -> int, g2: spec_fn(Addr) -> int, key: Addr)
    requires
        keys.no_duplicates(),
        keys.contains(key),
        forall|k: Addr| k != key ==> #[trigger] g1(k) == g2(k),
    ensures
        sum_over(keys, g2) == sum_over(keys, g1) + (g2(key) - g1(key)),
    decreases keys.len(),
{
    let p = keys.drop_last();
    assert(p.no_duplicates()) by {
        assert forall|i: int, j: int| 0 <= i < p.len() && 0 <= j < p.len() && i != j implies p[i] != p[j] by {
            assert(p[i] == keys[i] && p[j] == keys[j]);
        }
    }
    if keys.last() == key {
        assert forall|k: Addr| #[trigger] p.contains(k) implies g1(k) == g2(k) by {
            let i = choose|i: int| 0 <= i < p.len() && p[i] == k;
            assert(keys[i] == k);
            if k == key {
                assert(keys[keys.len() - 1] == key);
            }
        }
        lemma_sum_congruent(p, g1, g2);
    } else {
        let i = choose|i: int| 0 <= i < keys.len() && keys[i] == key;
        assert(i < keys.len() - 1);
        assert(p[i] == key);
        lemma_sum_update(p, g1, g2, key);
    }
}

/// A sum of zeros.
proof fn lemma_sum_zero(keys: Seq<Addr>, g: spec_fn(Addr) -> int)
    requires
        forall|k: Addr| #[trigger] g(k) == 0,
    ensures
        sum_over(keys, g) == 0,
    decreases keys.len(),
{
    if keys.len() > 0 {
        lemma_sum_zero(keys.drop_last(), g);
    }
}

/// The totals of `merchant` per token, picked by `field`.
pub open spec fn per_token(v: ShadeView, merchant: Addr, field: spec_fn(MerchantAnalytics) -> int) -> spec_fn(Addr) -> int {
    |t: Addr| field(v.merchant_analytics_of(merchant, t))
}

/// The totals in `token` per merchant, picked by `field`.
pub open spec fn per_merchant(v: ShadeView, token: Addr, field: spec_fn(MerchantAnalytics) -> int) -> spec_fn(Addr) -> int {
    |m: Addr| field(v.merchant_analytics_of(m, token))
}

pub open spec fn volume_field() -> spec_fn(MerchantAnalytics) -> int {
    |a: MerchantAnalytics| a.total_volume as int
}

pub open spec fn fees_field() -> spec_fn(MerchantAnalytics) -> int {
    |a: MerchantAnalytics| a.total_fees as int
}

pub open spec fn count_field() -> spec_fn(MerchantAnalytics) -> int {
    |a: MerchantAnalytics| a.transaction_count as int
}

pub open spec fn paid_field() -> spec_fn(MerchantAnalytics) -> int {
    |a: MerchantAnalytics| if a.transaction_count > 0 { 1int } else { 0int }
}

/// A merchant's summary is the sum of its totals over `tokens`, a list
/// without repeats of every token it has been paid in.
pub open spec fn merchant_totals_add_up(v: ShadeView, merchant: Addr, tokens: Seq<Addr>) -> bool {
    &&& tokens.no_duplicates()
    &&& forall|t: Addr| #[trigger] v.merchant_analytics.contains_key((merchant, t)) ==> tokens.contains(t)
    &&& v.summary_of(merchant).total_volume == sum_over(tokens, per_token(v, merchant, volume_field()))
    &&& v.summary_of(merchant).total_fees == sum_over(tokens, per_token(v, merchant, fees_field()))
    &&& v.summary_of(merchant).transaction_count == sum_over(tokens, per_token(v, merchant, count_field()))
}

/// A token's totals are the sums of the per-merchant totals over
/// `merchants`, a list without repeats of every merchant paid in it; its
/// volume agrees with its totals, and it counts exactly the merchants that
/// have been paid in it.
pub open spec fn token_totals_add_up(v: ShadeView, token: Addr, merchants: Seq<Addr>) -> bool {
    &&& merchants.no_duplicates()
    &&& forall|m: Addr| #[trigger] v.merchant_analytics.contains_key((m, token)) ==> merchants.contains(m)
    &&& v.token_volume_of(token) == v.token_analytics_of(token).total_volume
    &&& v.token_analytics_of(token).total_volume == sum_over(merchants, per_merchant(v, token, volume_field()))
    &&& v.token_analytics_of(token).total_fees == sum_over(merchants, per_merchant(v, token, fees_field()))
    &&& v.token_analytics_of(token).transaction_count == sum_over(merchants, per_merchant(v, token, count_field()))
    &&& v.token_analytics_of(token).unique_merchants == sum_over(merchants, per_merchant(v, token, paid_field()))
}

/// Before any payment, every total is zero, so the totals add up.
pub proof fn lemma_totals_add_up_at_start(merchant: Addr, token: Addr, tokens: Seq<Addr>, merchants: Seq<Addr>)
    requires
        tokens.no_duplicates(),
        merchants.no_duplicates(),
    ensures
        merchant_totals_add_up(ShadeView::empty(), merchant, tokens),
        token_totals_add_up(ShadeView::empty(), token, merchants),
{
    let v = ShadeView::empty();
    lemma_sum_zero(tokens, per_token(v, merchant, volume_field()));
    lemma_sum_zero(tokens, per_token(v, merchant, fees_field()));
    lemma_sum_zero(tokens, per_token(v, merchant, count_field()));
    lemma_sum_zero(merchants, per_merchant(v, token, volume_field()));
    lemma_sum_zero(merchants, per_merchant(v, token, fees_field()));
    lemma_sum_zero(merchants, per_merchant(v, token, count_field()));
    lemma_sum_zero(merchants, per_merchant(v, token, paid_field()));
}

/// Every payment keeps a merchant's summary equal to the sum of its totals
/// per token.
pub proof fn lemma_payment_keeps_merchant_totals(
    v: ShadeView,
    m: Addr,
    tokens: Seq<Addr>,
    merchant: Addr,
    token: Addr,
    volume_amount: i128,
    fee_amount: i128,
    now: u64,
)
    requires
        merchant_totals_add_up(v, m, tokens),
        v.payment_fits(merchant, token, volume_amount, fee_amount),
        merchant == m ==> tokens.contains(token),
    ensures
        merchant_totals_add_up(v.after_payment(merchant, token, volume_amount, fee_amount, now), m, tokens),
{
    let w = v.after_payment(merchant, token, volume_amount, fee_amount, now);
    assert forall|t: Addr| #[trigger] w.merchant_analytics.contains_key((m, t)) implies tokens.contains(t) by {
        if !(merchant == m && token == t) {
            assert(v.merchant_analytics.contains_key((m, t)));
        }
    }
    if merchant == m {
        lemma_sum_update(tokens, per_token(v, m, volume_field()), per_token(w, m, volume_field()), token);
        lemma_sum_update(tokens, per_token(v, m, fees_field()), per_token(w, m, fees_field()), token);
        lemma_sum_update(tokens, per_token(v, m, count_field()), per_token(w, m, count_field()), token);
    } else {
        assert forall|t: Addr| #[trigger] tokens.contains(t) implies per_token(v, m, volume_field())(t) == per_token(w, m, volume_field())(t)
            && per_token(v, m, fees_field())(t) == per_token(w, m, fees_field())(t)
            && per_token(v, m, count_field())(t) == per_token(w, m, count_field())(t) by {
            assert(w.merchant_analytics_of(m, t) == v.merchant_analytics_of(m, t));
        }
        lemma_sum_congruent(tokens, per_token(v, m, volume_field()), per_token(w, m, volume_field()));
        lemma_sum_congruent(tokens, per_token(v, m, fees_field()), per_token(w, m, fees_field()));
        lemma_sum_congruent(tokens, per_token(v, m, count_field()), per_token(w, m, count_field()));
    }
}

/// Every payment keeps a token's totals equal to the sums of the
/// per-merchant totals, and its merchant count equal to the number of
/// merchants paid in it.
pub proof fn lemma_payment_keeps_token_totals(
    v: ShadeView,
    t: Addr,
    merchants: Seq<Addr>,
    merchant: Addr,
    token: Addr,
    volume_amount: i128,
    fee_amount: i128,
    now: u64,
)
    requires
        token_totals_add_up(v, t, merchants),
        v.payment_fits(merchant, token, volume_amount, fee_amount),
        token == t ==> merchants.contains(merchant),
    ensures
        token_totals_add_up(v.after_payment(merchant, token, volume_amount, fee_amount, now), t, merchants),
{
    let w = v.after_payment(merchant, token, volume_amount, fee_amount, now);
    assert forall|m: Addr| #[trigger] w.merchant_analytics.contains_key((m, t)) implies merchants.contains(m) by {
        if !(merchant == m && token == t) {
            assert(v.merchant_analytics.contains_key((m, t)));
        }
    }
    if token == t {
        lemma_sum_update(merchants, per_merchant(v, t, volume_field()), per_merchant(w, t, volume_field()), merchant);
        lemma_sum_update(merchants, per_merchant(v, t, fees_field()), per_merchant(w, t, fees_field()), merchant);
        lemma_sum_update(merchants, per_merchant(v, t, count_field()), per_merchant(w, t, count_field()), merchant);
        lemma_sum_update(merchants, per_merchant(v, t, paid_field()), per_merchant(w, t, paid_field()), merchant);
    } else {
        assert forall|m: Addr| #[trigger] merchants.contains(m) implies w.merchant_analytics_of(m, t) == v.merchant_analytics_of(m, t) by {
        }
        lemma_sum_congruent(merchants, per_merchant(v, t, volume_field()), per_merchant(w, t, volume_field()));
        lemma_sum_congruent(merchants, per_merchant(v, t, fees_field()), per_merchant(w, t, fees_field()));
        lemma_sum_congruent(merchants, per_merchant(v, t, count_field()), per_merchant(w, t, count_field()));
        lemma_sum_congruent(merchants, per_merchant(v, t, paid_field()), per_merchant(w, t, paid_field()));
    }
}

/// A payment as the analytics record it: `volume` of `token` paid to
/// `merchant`, bearing `fee` in fees, at time `at`.
pub struct Payment {
    pub merchant: Addr,
    pub token: Addr,
    pub volume: i128,
    pub fee: i128,
    pub at: u64,
}

/// The state after recording `payments` in order, starting from `v`.
pub open spec fn replay_payments(v: ShadeView, payments: Seq<Payment>) -> ShadeView
    decreases payments.len(),
{
    if payments.len() == 0 {
        v
    } else {
        let p = payments.last();
        replay_payments(v, payments.drop_last()).after_payment(p.merchant, p.token, p.volume, p.fee, p.at)
    }
}

/// Whether every one of `payments`, recorded in order from `v`, keeps its
/// totals within their integer types.
pub open spec fn payments_fit(v: ShadeView, payments: Seq<Payment>) -> bool
    decreases payments.len(),
{
    if payments.len() == 0 {
        true
    } else {
        let p = payments.last();
        &&& payments_fit(v, payments.drop_last())
        &&& replay_payments(v, payments.drop_last()).payment_fits(p.merchant, p.token, p.volume, p.fee)
    }
}

/// Whatever payments are recorded from a fresh contract, a merchant's summary
/// is the sum of its totals over the tokens it was paid in, and a token's
/// totals are the sums of the per-merchant totals over the merchants paid
/// in it, its merchant count being the number of those merchants.
pub proof fn lemma_recorded_totals_add_up(
    payments: Seq<Payment>,
    merchant: Addr,
    tokens: Seq<Addr>,
    token: Addr,
    merchants: Seq<Addr>,
)
    requires
        payments_fit(ShadeView::empty(), payments),
        tokens.no_duplicates(),
        merchants.no_duplicates(),
        forall|i: int| 0 <= i < payments.len() && #[trigger] payments[i].merchant == merchant ==> tokens.contains(payments[i].token),
        forall|i: int| 0 <= i < payments.len() && #[trigger] payments[i].token == token ==> merchants.contains(payments[i].merchant),
    ensures
        merchant_totals_add_up(replay_payments(ShadeView::empty(), payments), merchant, tokens),
        token_totals_add_up(replay_payments(ShadeView::empty(), payments), token, merchants),
    decreases payments.len(),
{
    if payments.len() == 0 {
        lemma_totals_add_up_at_start(merchant, token, tokens, merchants);
    } else {
        let rest = payments.drop_last();
        let p = payments.last();
        assert forall|i: int| 0 <= i < rest.len() && #[trigger] rest[i].merchant == merchant implies tokens.contains(rest[i].token) by {
            assert(payments[i] == rest[i]);
        }
        assert forall|i: int| 0 <= i < rest.len() && #[trigger] rest[i].token == token implies merchants.contains(rest[i].merchant) by {
            assert(payments[i] == rest[i]);
        }
        lemma_recorded_totals_add_up(rest, merchant, tokens, token, merchants);
        let v = replay_payments(ShadeView::empty(), rest);
        assert(payments[payments.len() - 1] == p);
        lemma_payment_keeps_merchant_totals(v, merchant, tokens, p.merchant, p.token, p.volume, p.fee, p.at);
        lemma_payment_keeps_token_totals(v, token, merchants, p.merchant, p.token, p.volume, p.fee, p.at);
    }
}

/// The sum of the market shares of `tokens`.
pub open spec fn share_sum(v: ShadeView, tokens: Seq<Addr>) -> int
    decreases tokens.len(),
{
    if tokens.len() == 0 {
        0
    } else {
        share_sum(v, tokens.drop_last()) + v.market_share_of(tokens.last())
    }
}

/// With no negative volumes, the market shares of all accepted tokens add
/// up to at most 10,000 basis points; when some volume has been recorded,
/// rounding each share down loses less than one point per token, so they add
/// up to at least 10,000 - n + 1 for n accepted tokens.
pub proof fn lemma_market_shares_sum(v: ShadeView)
    requires
        forall|t: Addr| #[trigger] v.accepted_tokens.contains(t) ==> v.token_volume_of(t) >= 0,
    ensures
        ({
            let entries = v.volume_entries(v.accepted_tokens);
            let total = volume_total(entries, entries.len() as int);
            let n = v.accepted_tokens.len();
            &&& 0 <= share_sum(v, v.accepted_tokens) <= 10_000
            &&& total > 0 ==> share_sum(v, v.accepted_tokens) >= 10_000 - n + 1
        }),
{
    let acc = v.accepted_tokens;
    let entries = v.volume_entries(acc);
    let n = acc.len() as int;
    let total = volume_total(entries, n);
    assert forall|i: int| 0 <= i < entries.len() implies #[trigger] entries[i].1 >= 0 by {
        assert(acc.contains(acc[i]));
    }
    lemma_total_nonneg(entries, n);
    if total == 0 {
        lemma_share_sum_zero(v, n);
        assert(acc.take(n) =~= acc);
    } else {
        lemma_share_sum_bounds(v, n);
        assert(acc.take(n) =~= acc);
        let sn = share_sum(v, acc);
        assert(sn <= 10_000) by (nonlinear_arith)
            requires
                sn * total <= 10_000 * total,
                total > 0,
        ;
        assert(n > 0);
        let d = 10_000 - sn - n;
        assert(d * total <= -n) by (nonlinear_arith)
            requires
                10_000 * total - sn * total <= n * (total - 1),
                d == 10_000 - sn - n,
        ;
        assert(d < 0) by (nonlinear_arith)
            requires
                d * total <= -n,
                n > 0,
                total > 0,
        ;
        assert(sn >= 0) by (nonlinear_arith)
            requires
                sn * total >= 0,
                total > 0,
        ;
    }
}

proof fn lemma_share_sum_zero(v: ShadeView, k: int)
    requires
        0 <= k <= v.accepted_tokens.len(),
        volume_total(v.volume_entries(v.accepted_tokens), v.accepted_tokens.len() as int) == 0,
    ensures
        share_sum(v, v.accepted_tokens.take(k)) == 0,
    decreases k,
{
    if k > 0 {
        let acc = v.accepted_tokens;
        assert(acc.take(k).drop_last() =~= acc.take(k - 1));
        lemma_share_sum_zero(v, k - 1);
    }
}

proof fn lemma_share_sum_bounds(v: ShadeView, k: int)
    requires
        0 <= k <= v.accepted_tokens.len(),
        forall|i: int| 0 <= i < v.accepted_tokens.len() ==> #[trigger] v.volume_entries(v.accepted_tokens)[i].1 >= 0,
        volume_total(v.volume_entries(v.accepted_tokens), v.accepted_tokens.len() as int) > 0,
    ensures
        ({
            let entries = v.volume_entries(v.accepted_tokens);
            let total = volume_total(entries, entries.len() as int);
            let s = share_sum(v, v.accepted_tokens.take(k));
            &&& 0 <= s * total <= 10_000 * volume_total(entries, k)
            &&& 10_000 * volume_total(entries, k) - s * total <= k * (total - 1)
        }),
    decreases k,
{
    let acc = v.accepted_tokens;
    let entries = v.volume_entries(acc);
    let total = volume_total(entries, entries.len() as int);
    if k > 0 {
        lemma_share_sum_bounds(v, k - 1);
        assert(acc.take(k).drop_last() =~= acc.take(k - 1));
        assert(acc.take(k).last() == acc[k - 1]);
        let t = acc[k - 1];
        let vol = v.token_volume_of(t) as int;
        assert(entries[k - 1].1 == vol);
        let a = vol * 10_000;
        let q = a / total;
        assert(v.market_share_of(t) == q) by {
            if vol != 0 {
                assert(trunc_div(a, total) == a / total);
            } else {
                assert(a == 0);
            }
        }
        vstd::arithmetic::div_mod::lemma_fundamental_div_mod(a, total);
        vstd::arithmetic::div_mod::lemma_mod_bound(a, total);
        let sp = share_sum(v, acc.take(k - 1));
        let vp = volume_total(entries, k - 1);
        assert(volume_total(entries, k) == vp + vol);
        assert(share_sum(v, acc.take(k)) == sp + q);
        assert(0 <= (sp + q) * total <= 10_000 * (vp + vol)) by (nonlinear_arith)
            requires
                0 <= sp * total <= 10_000 * vp,
                a == total * q + a % total,
                0 <= a % total < total,
                a == vol * 10_000,
                vol >= 0,
                total > 0,
        ;
        assert(10_000 * (vp + vol) - (sp + q) * total <= k * (total - 1)) by (nonlinear_arith)
            requires
                10_000 * vp - sp * total <= (k - 1) * (total - 1),
                a == total * q + a % total,
                0 <= a % total < total,
                a == vol * 10_000,
        ;
    }
}

} // verus!
