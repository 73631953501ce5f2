use soroban_sdk::Env;
use shade::analytics::apply_volume_discount;
use shade::host_vec::{RankingList, TokenList};
use shade::state::ShadeState;

const ADMIN: u64 = 1;
const TOKEN: u64 = 100;
const MERCHANT: u64 = 7;

fn to_std(v: &RankingList) -> Vec<(u64, i128)> {
    (0..v.len()).map(|i| v.get(i)).collect()
}

fn token_list(env: &Env, tokens: &[u64]) -> TokenList {
    let mut l = TokenList::new(env);
    for t in tokens {
        l.push(*t);
    }
    l
}

fn setup(env: &Env) -> ShadeState {
    let mut s = ShadeState::new(env);
    s.initialize(ADMIN).unwrap();
    s.add_accepted_token(ADMIN, TOKEN).unwrap();
    s.set_fee(ADMIN, TOKEN, 1000).unwrap(); // 10% base fee in bps
    s.register_merchant(MERCHANT).unwrap();
    s
}

/// Pays `amount` to the merchant: the fee is taken at the merchant's current
/// volume, the payment is recorded, and the merchant's share is returned.
fn pay(s: &mut ShadeState, amount: i128, now: u64) -> i128 {
    let fee = s.calculate_fee(MERCHANT, TOKEN, amount);
    s.record_merchant_payment(MERCHANT, TOKEN, amount, fee, now);
    amount - fee
}

#[test]
fn test_fee_discounts_based_on_volume() {
    let env = Env::default();
    let mut s = setup(&env);
    let mut merchant_balance: i128 = 0;
    // Volume 0 -> fee 10% (100). Volume becomes 1,000.
    merchant_balance += pay(&mut s, 1000, 1);
    // Volume 1,000 -> fee 10% (900). Volume becomes 10,000.
    merchant_balance += pay(&mut s, 9000, 2);
    // Volume 10,000 -> discount 10% -> fee 9% (90).
    merchant_balance += pay(&mut s, 1000, 3);
    assert_eq!(merchant_balance, 9910);
    // Volume 11,000 -> fee 9% (3510). Volume becomes 50,000.
    merchant_balance += pay(&mut s, 39000, 4);
    // Volume 50,000 -> discount 25% -> fee 7.5% (75).
    merchant_balance += pay(&mut s, 1000, 5);
    assert_eq!(merchant_balance, 46325);
}

#[test]
fn test_volume_tracking_tier_3() {
    let env = Env::default();
    let mut s = setup(&env);
    let mut merchant_balance: i128 = 0;
    // Volume 0 -> fee 10% (20,000). Volume becomes 200,000.
    merchant_balance += pay(&mut s, 200000, 1);
    // Volume 200,000 -> discount 50% -> fee 5% (50).
    merchant_balance += pay(&mut s, 1000, 2);
    assert_eq!(merchant_balance, 180950);
}

#[test]
fn discount_tiers() {
    assert_eq!(apply_volume_discount(1000, 0), 1000);
    assert_eq!(apply_volume_discount(1000, 9_999), 1000);
    assert_eq!(apply_volume_discount(1000, 10_000), 900);
    assert_eq!(apply_volume_discount(1000, 49_999), 900);
    assert_eq!(apply_volume_discount(1000, 50_000), 750);
    assert_eq!(apply_volume_discount(1000, 199_999), 750);
    assert_eq!(apply_volume_discount(1000, 200_000), 500);
    assert_eq!(apply_volume_discount(33, 60_000), 24);
    assert_eq!(apply_volume_discount(-33, 60_000), -24);
}

#[test]
fn no_fee_without_configured_fee() {
    let env = Env::default();
    let mut s = setup(&env);
    assert_eq!(s.calculate_fee(MERCHANT, 999, 123_456), 0);
    s.set_fee(ADMIN, TOKEN, 0).unwrap();
    assert_eq!(s.calculate_fee(MERCHANT, TOKEN, 123_456), 0);
}

#[test]
fn payments_update_all_totals() {
    let env = Env::default();
    let mut s = setup(&env);
    s.record_merchant_payment(MERCHANT, TOKEN, 500, 50, 11);
    s.record_merchant_payment(MERCHANT, TOKEN, 300, 30, 12);
    s.record_merchant_payment(8, TOKEN, 200, 20, 13);
    let a = s.get_merchant_analytics(MERCHANT, TOKEN);
    assert_eq!((a.total_volume, a.total_fees, a.transaction_count, a.last_updated), (800, 80, 2, 12));
    assert_eq!(s.get_merchant_volume(MERCHANT, TOKEN), 800);
    let summary = s.get_merchant_analytics_summary(MERCHANT);
    assert_eq!((summary.total_volume, summary.total_fees, summary.transaction_count), (800, 80, 2));
    let t = s.get_token_analytics(TOKEN);
    assert_eq!((t.total_volume, t.total_fees, t.transaction_count, t.last_updated), (1000, 100, 3, 13));
    // Two distinct merchants have paid in the token.
    assert_eq!(t.unique_merchants, 2);
    assert_eq!(s.get_token_volume(TOKEN), 1000);
    s.record_merchant_payment(8, TOKEN, 1, 0, 14);
    assert_eq!(s.get_token_analytics(TOKEN).unique_merchants, 2);
    let empty = s.get_merchant_analytics(MERCHANT, 5);
    assert_eq!((empty.total_volume, empty.transaction_count), (0, 0));
}

#[test]
fn token_rankings_and_market_share() {
    let env = Env::default();
    let mut s = setup(&env);
    s.add_accepted_tokens(ADMIN, &token_list(&env, &[200, 300, 400])).unwrap();
    s.record_merchant_payment(MERCHANT, 200, 3000, 0, 1);
    s.record_merchant_payment(MERCHANT, TOKEN, 1000, 0, 2);
    s.record_merchant_payment(MERCHANT, 300, 3000, 0, 3);
    // Ranked by volume, highest first; equal volumes keep their order.
    assert_eq!(
        to_std(&s.get_token_dominance_metrics(&env, &token_list(&env, &[TOKEN, 200, 300, 400]))),
        vec![(200, 3000), (300, 3000), (TOKEN, 1000), (400, 0)]
    );
    assert_eq!(to_std(&s.get_top_tokens_by_volume(&env, 2)), vec![(200, 3000), (300, 3000)]);
    assert_eq!(s.get_top_tokens_by_volume(&env, 10).len(), 4);
    assert_eq!(to_std(&s.get_top_tokens_by_volume(&env, 0)), vec![]);
    assert_eq!(s.get_token_market_share(TOKEN), 1428);
    assert_eq!(s.get_token_market_share(200), 4285);
    assert_eq!(s.get_token_market_share(400), 0);
    assert_eq!(s.get_token_market_share(300), 4285);
    // The shares add up to between 10,000 - 4 + 1 and 10,000.
    let sum: i128 = [TOKEN, 200, 300, 400].iter().map(|t| s.get_token_market_share(*t)).sum();
    assert_eq!(sum, 9998);
}

#[test]
fn summaries_and_token_totals_add_up() {
    let env = Env::default();
    let mut s = setup(&env);
    s.add_accepted_token(ADMIN, 200).unwrap();
    s.record_merchant_payment(MERCHANT, TOKEN, 500, 5, 1);
    s.record_merchant_payment(MERCHANT, 200, 700, 7, 2);
    s.record_merchant_payment(8, TOKEN, 300, 3, 3);
    s.record_merchant_payment(MERCHANT, TOKEN, 100, 1, 4);
    let summary = s.get_merchant_analytics_summary(MERCHANT);
    let a1 = s.get_merchant_analytics(MERCHANT, TOKEN);
    let a2 = s.get_merchant_analytics(MERCHANT, 200);
    assert_eq!(summary.total_volume, a1.total_volume + a2.total_volume);
    assert_eq!(summary.total_fees, a1.total_fees + a2.total_fees);
    assert_eq!(summary.transaction_count, a1.transaction_count + a2.transaction_count);
    let b = s.get_merchant_analytics(8, TOKEN);
    let t = s.get_token_analytics(TOKEN);
    assert_eq!(s.get_token_volume(TOKEN), a1.total_volume + b.total_volume);
    assert_eq!(t.total_fees, a1.total_fees + b.total_fees);
    assert_eq!(t.transaction_count, 3);
    assert_eq!(t.unique_merchants, 2);
    assert_eq!(s.get_token_analytics(200).unique_merchants, 1);
}

#[test]
fn market_share_rounds_toward_zero() {
    let env = Env::default();
    let mut s = setup(&env);
    s.add_accepted_token(ADMIN, 200).unwrap();
    s.record_merchant_payment(MERCHANT, TOKEN, 1000, 0, 1);
    s.record_merchant_payment(MERCHANT, 200, -4000, 0, 2);
    // 10,000,000 / -3,000 rounds toward zero.
    assert_eq!(s.get_token_market_share(TOKEN), -3333);
    assert!(s.market_share_fits(TOKEN));
    assert!(s.fee_fits(MERCHANT, TOKEN, 1_000_000));
    assert!(!s.fee_fits(MERCHANT, TOKEN, i128::MAX));
    assert!(s.payment_fits(MERCHANT, TOKEN, 1, 1));
    assert!(!s.payment_fits(MERCHANT, TOKEN, i128::MAX, 0));
    assert!(s.volume_totals_fit(&token_list(&env, &[TOKEN, 200])));
}

#[test]
fn checked_rankings_refuse_overflowing_totals() {
    let env = Env::default();
    let mut s = setup(&env);
    s.add_accepted_token(ADMIN, 200).unwrap();
    s.record_merchant_payment(MERCHANT, TOKEN, 500, 0, 1);
    s.record_merchant_payment(8, 200, 700, 0, 2);
    let ranked = s.checked_token_dominance_metrics(&env, &token_list(&env, &[TOKEN, 200])).unwrap();
    assert_eq!(to_std(&ranked), vec![(200, 700), (TOKEN, 500)]);
    assert_eq!(to_std(&s.checked_top_tokens_by_volume(&env, 1).unwrap()), vec![(200, 700)]);
    assert_eq!(s.checked_token_market_share(TOKEN), Some(4166));

    let mut big = setup(&env);
    big.add_accepted_token(ADMIN, 200).unwrap();
    big.record_merchant_payment(MERCHANT, TOKEN, i128::MAX, 0, 1);
    big.record_merchant_payment(8, 200, 1, 0, 2);
    assert!(big.checked_token_dominance_metrics(&env, &token_list(&env, &[TOKEN, 200])).is_none());
    assert!(big.checked_top_tokens_by_volume(&env, 2).is_none());
    assert_eq!(big.checked_token_market_share(TOKEN), None);
    // A single token's total still fits.
    assert!(big.checked_token_dominance_metrics(&env, &token_list(&env, &[200])).is_some());
}

#[test]
fn totals_add_up_over_a_run_of_payments() {
    let env = Env::default();
    let mut s = setup(&env);
    s.add_accepted_token(ADMIN, 200).unwrap();
    let payments = [(MERCHANT, TOKEN, 10, 1), (8, TOKEN, 20, 2), (MERCHANT, 200, 30, 3), (8, 200, 40, 4), (MERCHANT, TOKEN, 50, 5)];
    for (i, (m, t, v, f)) in payments.iter().enumerate() {
        s.record_merchant_payment(*m, *t, *v, *f, i as u64);
    }
    for m in [MERCHANT, 8] {
        let summary = s.get_merchant_analytics_summary(m);
        let per_token: Vec<_> = [TOKEN, 200].iter().map(|t| s.get_merchant_analytics(m, *t)).collect();
        assert_eq!(summary.total_volume, per_token.iter().map(|a| a.total_volume).sum::<i128>());
        assert_eq!(summary.total_fees, per_token.iter().map(|a| a.total_fees).sum::<i128>());
        assert_eq!(summary.transaction_count, per_token.iter().map(|a| a.transaction_count).sum::<u64>());
    }
    for t in [TOKEN, 200] {
        let totals = s.get_token_analytics(t);
        let per_merchant: Vec<_> = [MERCHANT, 8].iter().map(|m| s.get_merchant_analytics(*m, t)).collect();
        assert_eq!(totals.total_volume, per_merchant.iter().map(|a| a.total_volume).sum::<i128>());
        assert_eq!(s.get_token_volume(t), totals.total_volume);
        assert_eq!(totals.unique_merchants, 2);
    }
    assert_eq!(s.get_merchant_analytics_summary(MERCHANT).total_volume, 90);
    assert_eq!(s.get_token_analytics(TOKEN).total_volume, 80);
}
