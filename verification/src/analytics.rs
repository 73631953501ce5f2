//! Payment analytics of the Shade contract and the fees derived from them:
//! per-merchant and per-token totals, volume discounts, token rankings and
//! market shares.

use vstd::prelude::*;
use soroban_sdk::Env;
use crate::host_vec::{RankingList, TokenList};
use crate::state::{ShadeState, ShadeView};
use crate::types::{Addr, MerchantAnalytics, MerchantAnalyticsSummary, TokenAnalytics};

verus! {

/// Integer division rounding toward zero, as the contract's arithmetic does.
pub open spec fn trunc_div(a: int, b: int) -> int {
    let q = (if a < 0 { -a } else { a }) / (if b < 0 { -b } else { b });
    if (a < 0) == (b < 0) {
        q
    } else {
        -q
    }
}

/// `a / b` rounded toward zero, as `i128` division rounds.
fn div_toward_zero(a: i128, b: i128) -> (q: i128)
    requires
        b != 0,
        !(a == i128::MIN && b == -1),
    ensures
        q == trunc_div(a as int, b as int),
{
    if b > 0 {
        a / b
    } else if b == i128::MIN {
        let ghost m: int = 0x8000_0000_0000_0000_0000_0000_0000_0000int;
        if a == i128::MIN {
            assert(m / m == 1) by (nonlinear_arith)
                requires
                    m > 0,
            ;
            1
        } else {
            let ghost x: int = if a < 0 { -a } else { a as int };
            assert(x / m == 0) by (nonlinear_arith)
                requires
                    0 <= x < m,
            ;
            0
        }
    } else {
        let q = a / (-b);
        assert(q != i128::MIN) by (nonlinear_arith)
            requires
                q == trunc_div(a as int, -b as int),
                -b >= 1,
                a >= i128::MIN,
                !(a == i128::MIN && b == -1),
        {
        }
        -q
    }
}

/// The discount, in percent, a merchant earns with `volume` of past
/// payments in a token.
pub open spec fn discount_percentage(volume: int) -> int {
    if volume >= 200_000 {
        50
    } else if volume >= 50_000 {
        25
    } else if volume >= 10_000 {
        10
    } else {
        0
    }
}

/// Whether discounting `fee_bps` for `volume` stays within `i128`.
pub open spec fn discount_fits(fee_bps: int, volume: int) -> bool {
    let d = discount_percentage(volume);
    d == 0 || (i128::MIN <= fee_bps * (100 - d) <= i128::MAX)
}

/// The fee in basis points after the volume discount.
pub open spec fn discounted_fee(fee_bps: int, volume: int) -> int {
    let d = discount_percentage(volume);
    if d == 0 {
        fee_bps
    } else {
        trunc_div(fee_bps * (100 - d), 100)
    }
}

/// The discount percentage that `volume` earns.
fn discount_percent(volume: i128) -> (d: i128)
    ensures
        d == discount_percentage(volume as int),
{
    if volume >= 200_000 {
        50
    } else if volume >= 50_000 {
        25
    } else if volume >= 10_000 {
        10
    } else {
        0
    }
}

/// Reduces a fee in basis points by the discount that `volume` earns: 10%
/// from 10,000, 25% from 50,000 and 50% from 200,000.
pub fn apply_volume_discount(fee_bps: i128, volume: i128) -> (r: i128)
    requires
        discount_fits(fee_bps as int, volume as int),
    ensures
        r == discounted_fee(fee_bps as int, volume as int),
{
    let discount_percentage: i128 = if volume >= 200_000 {
        50
    } else if volume >= 50_000 {
        25
    } else if volume >= 10_000 {
        10
    } else {
        0
    };
    if discount_percentage == 0 {
        fee_bps
    } else {
        (fee_bps * (100 - discount_percentage)) / 100
    }
}

/// The index at which `volume` joins a list ranked by volume, highest first:
/// after every entry whose volume is at least as high.
pub open spec fn insert_position(s: Seq<(Addr, i128)>, volume: i128) -> int
    decreases s.len(),
{
    if s.len() == 0 {
        0
    } else if s[0].1 < volume {
        0
    } else {
        1 + insert_position(s.drop_first(), volume)
    }
}

/// Whether `s` is ordered by volume, highest first.
pub open spec fn ranked_desc(s: Seq<(Addr, i128)>) -> bool {
    forall|i: int, j: int| 0 <= i < j < s.len() ==> s[i].1 >= s[j].1
}

/// The entries of `s` whose volume is `w`, in their order in `s`.
pub open spec fn with_volume(s: Seq<(Addr, i128)>, w: i128) -> Seq<(Addr, i128)>
    decreases s.len(),
{
    if s.len() == 0 {
        s
    } else {
        (if s[0].1 == w {
            seq![s[0]]
        } else {
            Seq::<(Addr, i128)>::empty()
        }) + with_volume(s.drop_first(), w)
    }
}

/// Whether `ranked` is `entries` ranked by volume: the same entries, each as
/// often, ordered by volume from highest to lowest, and those of equal
/// volume in the order `entries` gives them.
pub open spec fn ranks(ranked: Seq<(Addr, i128)>, entries: Seq<(Addr, i128)>) -> bool {
    &&& ranked.to_multiset() == entries.to_multiset()
    &&& ranked_desc(ranked)
    &&& forall|w: i128| #[trigger] with_volume(ranked, w) == with_volume(entries, w)
}

/// The sum of the first `n` volumes of `entries`.
pub open spec fn volume_total(entries: Seq<(Addr, i128)>, n: int) -> int
    decreases n,
{
    if n <= 0 {
        0
    } else {
        volume_total(entries, n - 1) + entries[n - 1].1
    }
}

/// Whether every running total of the volumes of `entries` fits in `i128`.
pub open spec fn running_totals_fit(entries: Seq<(Addr, i128)>) -> bool {
    forall|n: int| 0 <= n <= entries.len() ==> i128::MIN <= #[trigger] volume_total(entries, n) <= i128::MAX
}

/// What the insertion index is: every entry before it has at least the
/// volume, the entry at it has less.
pub proof fn lemma_insert_position(s: Seq<(Addr, i128)>, volume: i128)
    ensures
        0 <= insert_position(s, volume) <= s.len(),
        forall|i: int| 0 <= i < insert_position(s, volume) ==> s[i].1 >= volume,
        insert_position(s, volume) < s.len() ==> s[insert_position(s, volume)].1 < volume,
    decreases s.len(),
{
    if s.len() > 0 && s[0].1 >= volume {
        lemma_insert_position(s.drop_first(), volume);
        assert forall|i: int| 0 <= i < insert_position(s, volume) implies s[i].1 >= volume by {
            if i > 0 {
                assert(s[i] == s.drop_first()[i - 1]);
            }
        }
    }
}

/// Picking the entries of one volume distributes over concatenation.
pub proof fn lemma_with_volume_append(a: Seq<(Addr, i128)>, b: Seq<(Addr, i128)>, w: i128)
    ensures
        with_volume(a + b, w) == with_volume(a, w) + with_volume(b, w),
    decreases a.len(),
{
    if a.len() == 0 {
        assert(a + b =~= b);
        assert(with_volume(a, w) =~= Seq::<(Addr, i128)>::empty());
        assert(with_volume(a, w) + with_volume(b, w) =~= with_volume(b, w));
    } else {
        assert((a + b).drop_first() =~= a.drop_first() + b);
        lemma_with_volume_append(a.drop_first(), b, w);
        let head = if a[0].1 == w {
            seq![a[0]]
        } else {
            Seq::<(Addr, i128)>::empty()
        };
        assert((a + b)[0] == a[0]);
        assert(head + (with_volume(a.drop_first(), w) + with_volume(b, w)) =~= (head + with_volume(a.drop_first(), w)) + with_volume(b, w));
    }
}

/// Picking from a single entry.
proof fn lemma_with_volume_single(x: (Addr, i128), w: i128)
    ensures
        with_volume(seq![x], w) == (if x.1 == w {
            seq![x]
        } else {
            Seq::<(Addr, i128)>::empty()
        }),
{
    let xs = seq![x];
    assert(xs.drop_first() =~= Seq::<(Addr, i128)>::empty());
    assert(with_volume(xs.drop_first(), w) =~= Seq::<(Addr, i128)>::empty());
    assert(seq![x] + Seq::<(Addr, i128)>::empty() =~= seq![x]);
    assert(Seq::<(Addr, i128)>::empty() + Seq::<(Addr, i128)>::empty() =~= Seq::<(Addr, i128)>::empty());
}

/// A list with no entry of volume `w` has none to pick.
proof fn lemma_with_volume_none(s: Seq<(Addr, i128)>, w: i128)
    requires
        forall|i: int| 0 <= i < s.len() ==> s[i].1 != w,
    ensures
        with_volume(s, w) == Seq::<(Addr, i128)>::empty(),
    decreases s.len(),
{
    if s.len() > 0 {
        assert(forall|i: int| 0 <= i < s.drop_first().len() ==> s.drop_first()[i] == s[i + 1]);
        lemma_with_volume_none(s.drop_first(), w);
        assert(s[0].1 != w);
        assert(Seq::<(Addr, i128)>::empty() + Seq::<(Addr, i128)>::empty() =~= Seq::<(Addr, i128)>::empty());
    }
}

/// There is only one ranking of a list of entries: two lists that both rank
/// `entries` by volume are equal.
pub proof fn lemma_ranking_unique(r1: Seq<(Addr, i128)>, r2: Seq<(Addr, i128)>, entries: Seq<(Addr, i128)>)
    requires
        ranks(r1, entries),
        ranks(r2, entries),
    ensures
        r1 == r2,
{
    lemma_same_ranking(r1, r2);
}

proof fn lemma_same_ranking(r1: Seq<(Addr, i128)>, r2: Seq<(Addr, i128)>)
    requires
        r1.to_multiset() == r2.to_multiset(),
        ranked_desc(r1),
        ranked_desc(r2),
        forall|w: i128| #[trigger] with_volume(r1, w) == with_volume(r2, w),
    ensures
        r1 == r2,
    decreases r1.len(),
{
    vstd::seq_lib::to_multiset_len(r1);
    vstd::seq_lib::to_multiset_len(r2);
    if r1.len() == 0 {
        assert(r2.len() == 0);
        assert(r1 =~= r2);
    } else {
        assert(r2.len() == r1.len());
        let a = r1[0];
        let b = r2[0];
        vstd::seq_lib::to_multiset_contains(r1, a);
        vstd::seq_lib::to_multiset_contains(r2, a);
        vstd::seq_lib::to_multiset_contains(r1, b);
        vstd::seq_lib::to_multiset_contains(r2, b);
        assert(r1.contains(a));
        assert(r2.contains(a));
        assert(r2.contains(b));
        assert(r1.contains(b));
        let ia = choose|i: int| 0 <= i < r2.len() && r2[i] == a;
        let ib = choose|i: int| 0 <= i < r1.len() && r1[i] == b;
        assert(b.1 >= a.1) by {
            if ia > 0 {
                assert(r2[0].1 >= r2[ia].1);
            }
        }
        assert(a.1 >= b.1) by {
            if ib > 0 {
                assert(r1[0].1 >= r1[ib].1);
            }
        }
        let wv = a.1;
        let t1 = r1.drop_first();
        let t2 = r2.drop_first();
        assert(with_volume(r1, wv) == seq![a] + with_volume(t1, wv));
        assert(with_volume(r2, wv) == seq![b] + with_volume(t2, wv));
        assert((seq![a] + with_volume(t1, wv))[0] == a);
        assert((seq![b] + with_volume(t2, wv))[0] == b);
        assert(a == b);
        assert forall|w: i128| #[trigger] with_volume(t1, w) == with_volume(t2, w) by {
            if w == wv {
                assert(with_volume(t1, w) =~= with_volume(r1, w).drop_first());
                assert(with_volume(t2, w) =~= with_volume(r2, w).drop_first());
            } else {
                assert(with_volume(r1, w) =~= with_volume(t1, w));
                assert(with_volume(r2, w) =~= with_volume(t2, w));
            }
        }
        assert(r1.to_multiset() == t1.to_multiset().insert(a)) by {
            assert(r1 =~= t1.insert(0, a));
            vstd::seq_lib::to_multiset_insert(t1, 0, a);
        }
        assert(r2.to_multiset() == t2.to_multiset().insert(a)) by {
            assert(r2 =~= t2.insert(0, a));
            vstd::seq_lib::to_multiset_insert(t2, 0, a);
        }
        assert(t1.to_multiset() =~= t2.to_multiset()) by {
            assert forall|e: (Addr, i128)| t1.to_multiset().count(e) == t2.to_multiset().count(e) by {
                assert(r1.to_multiset().count(e) == r2.to_multiset().count(e));
                assert(t1.to_multiset().insert(a).count(e) == r1.to_multiset().count(e));
                assert(t2.to_multiset().insert(a).count(e) == r2.to_multiset().count(e));
                if e == a {
                    assert(t1.to_multiset().insert(a).count(e) == t1.to_multiset().count(e) + 1);
                    assert(t2.to_multiset().insert(a).count(e) == t2.to_multiset().count(e) + 1);
                } else {
                    assert(t1.to_multiset().insert(a).count(e) == t1.to_multiset().count(e));
                    assert(t2.to_multiset().insert(a).count(e) == t2.to_multiset().count(e));
                }
            }
        }
        assert(ranked_desc(t1)) by {
            assert forall|i: int, j: int| 0 <= i < j < t1.len() implies t1[i].1 >= t1[j].1 by {
                assert(t1[i] == r1[i + 1] && t1[j] == r1[j + 1]);
            }
        }
        assert(ranked_desc(t2)) by {
            assert forall|i: int, j: int| 0 <= i < j < t2.len() implies t2[i].1 >= t2[j].1 by {
                assert(t2[i] == r2[i + 1] && t2[j] == r2[j + 1]);
            }
        }
        lemma_same_ranking(t1, t2);
        assert(r1 =~= r2) by {
            assert forall|i: int| 0 <= i < r1.len() implies r1[i] == r2[i] by {
                if i > 0 {
                    assert(r1[i] == t1[i - 1] && r2[i] == t2[i - 1]);
                }
            }
        }
    }
}

/// Inserting an entry at its insertion index into a ranked list keeps it
/// ranked, adds the entry once, and puts it after the entries of its volume.
pub proof fn lemma_insert_ranked(r: Seq<(Addr, i128)>, x: (Addr, i128))
    requires
        ranked_desc(r),
    ensures
        ({
            let q = r.insert(insert_position(r, x.1), x);
            &&& ranked_desc(q)
            &&& q.to_multiset() == r.to_multiset().insert(x)
            &&& forall|w: i128| #[trigger] with_volume(q, w) == with_volume(r, w) + with_volume(seq![x], w)
        }),
    decreases r.len(),
{
    broadcast use vstd::seq_lib::to_multiset_insert;
    let pos = insert_position(r, x.1);
    lemma_insert_position(r, x.1);
    let q = r.insert(pos, x);
    assert forall|i: int, j: int| 0 <= i < j < q.len() implies q[i].1 >= q[j].1 by {
        if j < pos {
            assert(q[i] == r[i] && q[j] == r[j]);
        } else if j == pos {
            assert(q[i] == r[i]);
        } else if i < pos {
            assert(q[i] == r[i] && q[j] == r[j - 1]);
        } else if i == pos {
            assert(q[j] == r[j - 1]);
            assert(r[pos].1 >= r[j - 1].1);
        } else {
            assert(q[i] == r[i - 1] && q[j] == r[j - 1]);
        }
    }
    let xs = seq![x];
    assert(xs.drop_first() =~= Seq::<(Addr, i128)>::empty());
    assert forall|w: i128| #[trigger] with_volume(q, w) == with_volume(r, w) + with_volume(xs, w) by {
        if pos == 0 {
            assert(q =~= xs + r);
            lemma_with_volume_append(xs, r, w);
            lemma_with_volume_single(x, w);
            if x.1 == w {
                lemma_with_volume_none(r, w);
                assert(with_volume(xs, w) =~= xs);
                assert(with_volume(r, w) + with_volume(xs, w) =~= xs);
                assert(with_volume(xs, w) + with_volume(r, w) =~= xs);
            } else {
                assert(with_volume(xs, w) =~= Seq::<(Addr, i128)>::empty());
                assert(with_volume(xs, w) + with_volume(r, w) =~= with_volume(r, w));
                assert(with_volume(r, w) + with_volume(xs, w) =~= with_volume(r, w));
            }
        } else {
            let rest = r.drop_first();
            assert(ranked_desc(rest)) by {
                assert forall|i: int, j: int| 0 <= i < j < rest.len() implies rest[i].1 >= rest[j].1 by {
                    assert(rest[i] == r[i + 1] && rest[j] == r[j + 1]);
                }
            }
            lemma_insert_ranked(rest, x);
            assert(insert_position(rest, x.1) == pos - 1);
            let q2 = rest.insert(pos - 1, x);
            assert(q =~= seq![r[0]] + q2);
            assert(q.drop_first() =~= q2);
            assert(q[0] == r[0]);
            let head = if r[0].1 == w {
                seq![r[0]]
            } else {
                Seq::<(Addr, i128)>::empty()
            };
            assert(with_volume(q2, w) == with_volume(rest, w) + with_volume(xs, w));
            assert(head + (with_volume(rest, w) + with_volume(xs, w)) =~= (head + with_volume(rest, w)) + with_volume(xs, w));
        }
    }
}

impl ShadeView {
    /// Each of `tokens` paired with its recorded volume.
    pub open spec fn volume_entries(self, tokens: Seq<Addr>) -> Seq<(Addr, i128)> {
        Seq::new(tokens.len(), |i: int| (tokens[i], self.token_volume_of(tokens[i])))
    }

    /// Whether the share of `token` can be computed within `i128`: the running
    /// totals are needed only once its volume is not zero, the product only
    /// once the total is not zero either.
    pub open spec fn market_share_computable(self, token: Addr) -> bool {
        let v = self.token_volume_of(token);
        let entries = self.volume_entries(self.accepted_tokens);
        let total = volume_total(entries, entries.len() as int);
        v == 0 || (running_totals_fit(entries) && (total == 0 || i128::MIN <= v * 10_000 <= i128::MAX))
    }

    /// The share of `token` in the volume of all accepted tokens, in basis
    /// points; zero when its volume or the total is zero.
    pub open spec fn market_share_of(self, token: Addr) -> int {
        let v = self.token_volume_of(token);
        let entries = self.volume_entries(self.accepted_tokens);
        let total = volume_total(entries, entries.len() as int);
        if v == 0 || total == 0 {
            0
        } else {
            trunc_div(v * 10_000, total)
        }
    }
}

impl ShadeView {
    /// The totals of `merchant` in `token`; before any record, the volume
    /// kept on its own and all else zero.
    pub open spec fn merchant_analytics_of(self, merchant: Addr, token: Addr) -> MerchantAnalytics {
        if self.merchant_analytics.contains_key((merchant, token)) {
            self.merchant_analytics[(merchant, token)]
        } else {
            MerchantAnalytics {
                merchant,
                token,
                total_volume: if self.merchant_volumes.contains_key((merchant, token)) {
                    self.merchant_volumes[(merchant, token)]
                } else {
                    0
                },
                total_fees: 0,
                transaction_count: 0,
                last_updated: 0,
            }
        }
    }

    /// The payment volume of `merchant` in `token`.
    pub open spec fn merchant_volume_of(self, merchant: Addr, token: Addr) -> i128 {
        self.merchant_analytics_of(merchant, token).total_volume
    }

    /// The totals of `merchant` over all tokens.
    pub open spec fn summary_of(self, merchant: Addr) -> MerchantAnalyticsSummary {
        if self.merchant_summaries.contains_key(merchant) {
            self.merchant_summaries[merchant]
        } else {
            MerchantAnalyticsSummary {
                merchant,
                total_volume: 0,
                total_fees: 0,
                transaction_count: 0,
                last_updated: 0,
            }
        }
    }

    /// The totals of `token` over all merchants.
    pub open spec fn token_analytics_of(self, token: Addr) -> TokenAnalytics {
        if self.token_analytics.contains_key(token) {
            self.token_analytics[token]
        } else {
            TokenAnalytics {
                token,
                total_volume: 0,
                total_fees: 0,
                transaction_count: 0,
                unique_merchants: 0,
                last_updated: 0,
            }
        }
    }

    /// The payment volume of `token`.
    pub open spec fn token_volume_of(self, token: Addr) -> i128 {
        if self.token_volumes.contains_key(token) {
            self.token_volumes[token]
        } else {
            0
        }
    }

    /// Whether the fee on `amount` of `token` paid to `merchant` can be
    /// computed within `i128`.
    pub open spec fn fee_fits(self, merchant: Addr, token: Addr, amount: i128) -> bool {
        let bps = self.fee_of(token);
        let volume = self.merchant_volume_of(merchant, token);
        bps == 0 || {
            &&& discount_fits(bps as int, volume as int)
            &&& i128::MIN <= amount * discounted_fee(bps as int, volume as int) <= i128::MAX
        }
    }

    /// The platform fee on `amount` of `token` paid to `merchant`: the
    /// token's fee, discounted by the merchant's volume, in basis points.
    pub open spec fn fee_for(self, merchant: Addr, token: Addr, amount: i128) -> int {
        let bps = self.fee_of(token);
        if bps == 0 {
            0
        } else {
            trunc_div(amount * discounted_fee(bps as int, self.merchant_volume_of(merchant, token) as int), 10_000)
        }
    }

    /// Whether recording a payment keeps every total within its type.
    pub open spec fn payment_fits(self, merchant: Addr, token: Addr, volume_amount: i128, fee_amount: i128) -> bool {
        let a = self.merchant_analytics_of(merchant, token);
        let s = self.summary_of(merchant);
        let t = self.token_analytics_of(token);
        &&& i128::MIN <= a.total_volume + volume_amount <= i128::MAX
        &&& i128::MIN <= a.total_fees + fee_amount <= i128::MAX
        &&& a.transaction_count < u64::MAX
        &&& i128::MIN <= s.total_volume + volume_amount <= i128::MAX
        &&& i128::MIN <= s.total_fees + fee_amount <= i128::MAX
        &&& s.transaction_count < u64::MAX
        &&& i128::MIN <= t.total_volume + volume_amount <= i128::MAX
        &&& i128::MIN <= t.total_fees + fee_amount <= i128::MAX
        &&& t.transaction_count < u64::MAX
        &&& t.unique_merchants < u64::MAX
    }

    /// The state once a payment of `volume_amount` of `token` to `merchant`,
    /// bearing `fee_amount` in fees, has been recorded at `now`. A token
    /// counts one more merchant when this merchant had no earlier payment in
    /// it.
    pub open spec fn after_payment(self, merchant: Addr, token: Addr, volume_amount: i128, fee_amount: i128, now: u64) -> ShadeView {
        let a = self.merchant_analytics_of(merchant, token);
        let s = self.summary_of(merchant);
        let t = self.token_analytics_of(token);
        let a2 = MerchantAnalytics {
            total_volume: (a.total_volume + volume_amount) as i128,
            total_fees: (a.total_fees + fee_amount) as i128,
            transaction_count: (a.transaction_count + 1) as u64,
            last_updated: now,
            ..a
        };
        let s2 = MerchantAnalyticsSummary {
            total_volume: (s.total_volume + volume_amount) as i128,
            total_fees: (s.total_fees + fee_amount) as i128,
            transaction_count: (s.transaction_count + 1) as u64,
            last_updated: now,
            ..s
        };
        let t2 = TokenAnalytics {
            total_volume: (t.total_volume + volume_amount) as i128,
            total_fees: (t.total_fees + fee_amount) as i128,
            transaction_count: (t.transaction_count + 1) as u64,
            unique_merchants: if a.transaction_count == 0 {
                (t.unique_merchants + 1) as u64
            } else {
                t.unique_merchants
            },
            last_updated: now,
            ..t
        };
        ShadeView {
            merchant_analytics: self.merchant_analytics.insert((merchant, token), a2),
            merchant_volumes: self.merchant_volumes.insert((merchant, token), a2.total_volume),
            merchant_summaries: self.merchant_summaries.insert(merchant, s2),
            token_analytics: self.token_analytics.insert(token, t2),
            token_volumes: self.token_volumes.insert(token, t2.total_volume),
            ..self
        }
    }
}

impl ShadeState {
    /// The payment totals of `merchant` in `token`.
    pub fn get_merchant_analytics(&self, merchant: Addr, token: Addr) -> (a: MerchantAnalytics)
        ensures
            a == self@.merchant_analytics_of(merchant, token),
    {
        match self.merchant_analytics.get(&(merchant, token)) {
            Some(a) => *a,
            None => MerchantAnalytics {
                merchant,
                token,
                total_volume: match self.merchant_volumes.get(&(merchant, token)) {
                    Some(v) => *v,
                    None => 0,
                },
                total_fees: 0,
                transaction_count: 0,
                last_updated: 0,
            },
        }
    }

    /// The payment volume of `merchant` in `token`.
    pub fn get_merchant_volume(&self, merchant: Addr, token: Addr) -> (v: i128)
        ensures
            v == self@.merchant_volume_of(merchant, token),
    {
        self.get_merchant_analytics(merchant, token).total_volume
    }

    /// The payment totals of `merchant` over all tokens.
    pub fn get_merchant_analytics_summary(&self, merchant: Addr) -> (s: MerchantAnalyticsSummary)
        ensures
            s == self@.summary_of(merchant),
    {
        match self.merchant_summaries.get(&merchant) {
            Some(s) => *s,
            None => MerchantAnalyticsSummary {
                merchant,
                total_volume: 0,
                total_fees: 0,
                transaction_count: 0,
                last_updated: 0,
            },
        }
    }

    /// The payment totals of `token` over all merchants.
    pub fn get_token_analytics(&self, token: Addr) -> (t: TokenAnalytics)
        ensures
            t == self@.token_analytics_of(token),
    {
        match self.token_analytics.get(&token) {
            Some(t) => *t,
            None => TokenAnalytics {
                token,
                total_volume: 0,
                total_fees: 0,
                transaction_count: 0,
                unique_merchants: 0,
                last_updated: 0,
            },
        }
    }

    /// The payment volume of `token`.
    pub fn get_token_volume(&self, token: Addr) -> (v: i128)
        ensures
            v == self@.token_volume_of(token),
    {
        match self.token_volumes.get(&token) {
            Some(v) => *v,
            None => 0,
        }
    }

    /// The platform fee on `amount` of `token` paid to `merchant`.
    pub fn calculate_fee(&self, merchant: Addr, token: Addr, amount: i128) -> (fee: i128)
        requires
            self@.fee_fits(merchant, token, amount),
        ensures
            fee == self@.fee_for(merchant, token, amount),
    {
        let fee_bps = self.get_fee(token);
        if fee_bps == 0 {
            return 0;
        }
        let volume = self.get_merchant_volume(merchant, token);
        let discounted_bps = apply_volume_discount(fee_bps, volume);
        (amount * discounted_bps) / 10_000i128
    }

    /// Adds a payment to the totals of the merchant, of the merchant in the
    /// token, and of the token.
    pub fn record_merchant_payment(&mut self, merchant: Addr, token: Addr, volume_amount: i128, fee_amount: i128, now: u64)
        requires
            old(self)@.payment_fits(merchant, token, volume_amount, fee_amount),
        ensures
            final(self)@ == old(self)@.after_payment(merchant, token, volume_amount, fee_amount, now),
    {
        let mut analytics = self.get_merchant_analytics(merchant, token);
        // A merchant with no earlier payment in this token is new to it.
        let is_new_merchant = analytics.transaction_count == 0;
        analytics.total_volume = analytics.total_volume + volume_amount;
        analytics.total_fees = analytics.total_fees + fee_amount;
        analytics.transaction_count = analytics.transaction_count + 1;
        analytics.last_updated = now;
        self.merchant_analytics.insert((merchant, token), analytics);
        self.merchant_volumes.insert((merchant, token), analytics.total_volume);

        let mut summary = self.get_merchant_analytics_summary(merchant);
        summary.total_volume = summary.total_volume + volume_amount;
        summary.total_fees = summary.total_fees + fee_amount;
        summary.transaction_count = summary.transaction_count + 1;
        summary.last_updated = analytics.last_updated;
        self.merchant_summaries.insert(merchant, summary);

        self.record_token_payment(token, volume_amount, fee_amount, now, is_new_merchant);
    }

    /// Adds a payment to the totals of the token, counting one more merchant
    /// when the payment comes from a merchant new to the token.
    fn record_token_payment(&mut self, token: Addr, volume_amount: i128, fee_amount: i128, now: u64, is_new_merchant: bool)
        requires
            ({
                let t = old(self)@.token_analytics_of(token);
                &&& i128::MIN <= t.total_volume + volume_amount <= i128::MAX
                &&& i128::MIN <= t.total_fees + fee_amount <= i128::MAX
                &&& t.transaction_count < u64::MAX
                &&& t.unique_merchants < u64::MAX
            }),
        ensures
            ({
                let t = old(self)@.token_analytics_of(token);
                let t2 = TokenAnalytics {
                    total_volume: (t.total_volume + volume_amount) as i128,
                    total_fees: (t.total_fees + fee_amount) as i128,
                    transaction_count: (t.transaction_count + 1) as u64,
                    unique_merchants: if is_new_merchant {
                        (t.unique_merchants + 1) as u64
                    } else {
                        t.unique_merchants
                    },
                    last_updated: now,
                    ..t
                };
                final(self)@ == (ShadeView {
                    token_analytics: old(self)@.token_analytics.insert(token, t2),
                    token_volumes: old(self)@.token_volumes.insert(token, t2.total_volume),
                    ..old(self)@
                })
            }),
    {
        let mut analytics = self.get_token_analytics(token);
        analytics.total_volume = analytics.total_volume + volume_amount;
        analytics.total_fees = analytics.total_fees + fee_amount;
        analytics.transaction_count = analytics.transaction_count + 1;
        if is_new_merchant {
            analytics.unique_merchants = analytics.unique_merchants + 1;
        }
        analytics.last_updated = now;
        self.token_analytics.insert(token, analytics);
        self.token_volumes.insert(token, analytics.total_volume);
    }
    /// Whether [`ShadeState::calculate_fee`] can compute the fee on `amount`
    /// of `token` paid to `merchant` within `i128`.
    pub fn fee_fits(&self, merchant: Addr, token: Addr, amount: i128) -> (b: bool)
        ensures
            b == self@.fee_fits(merchant, token, amount),
    {
        let fee_bps = self.get_fee(token);
        if fee_bps == 0 {
            return true;
        }
        let volume = self.get_merchant_volume(merchant, token);
        let d = discount_percent(volume);
        let discounted = if d == 0 {
            fee_bps
        } else {
            match fee_bps.checked_mul(100 - d) {
                None => return false,
                Some(p) => p / 100,
            }
        };
        amount.checked_mul(discounted).is_some()
    }

    /// Whether [`ShadeState::record_merchant_payment`] keeps every total
    /// within its type.
    pub fn payment_fits(&self, merchant: Addr, token: Addr, volume_amount: i128, fee_amount: i128) -> (b: bool)
        ensures
            b == self@.payment_fits(merchant, token, volume_amount, fee_amount),
    {
        let a = self.get_merchant_analytics(merchant, token);
        let s = self.get_merchant_analytics_summary(merchant);
        let t = self.get_token_analytics(token);
        a.total_volume.checked_add(volume_amount).is_some()
            && a.total_fees.checked_add(fee_amount).is_some()
            && a.transaction_count < u64::MAX
            && s.total_volume.checked_add(volume_amount).is_some()
            && s.total_fees.checked_add(fee_amount).is_some()
            && s.transaction_count < u64::MAX
            && t.total_volume.checked_add(volume_amount).is_some()
            && t.total_fees.checked_add(fee_amount).is_some()
            && t.transaction_count < u64::MAX
            && t.unique_merchants < u64::MAX
    }

    /// Whether every running total of the volumes of `tokens` fits in `i128`.
    pub fn volume_totals_fit(&self, tokens: &TokenList) -> (b: bool)
        ensures
            b == running_totals_fit(self@.volume_entries(tokens@)),
    {
        let ghost entries = self@.volume_entries(tokens@);
        let n = tokens.len();
        let mut total: i128 = 0;
        let mut i: u32 = 0;
        while i < n
            invariant
                n == tokens@.len(),
                entries == self@.volume_entries(tokens@),
                0 <= i <= n,
                total == volume_total(entries, i as int),
                forall|k: int| 0 <= k <= i ==> i128::MIN <= #[trigger] volume_total(entries, k) <= i128::MAX,
            decreases n - i,
        {
            let volume = self.get_token_volume(tokens.get(i));
            proof {
                assert(entries[i as int].1 == volume);
            }
            match total.checked_add(volume) {
                None => {
                    proof {
                        assert(!(i128::MIN <= volume_total(entries, i + 1) <= i128::MAX));
                    }
                    return false;
                },
                Some(t) => {
                    total = t;
                },
            }
            i = i + 1;
        }
        true
    }

    /// Whether [`ShadeState::get_token_market_share`] can compute the share
    /// of `token` within `i128`.
    pub fn market_share_fits(&self, token: Addr) -> (b: bool)
        ensures
            b == self@.market_share_computable(token),
    {
        let token_volume = self.get_token_volume(token);
        if token_volume == 0 {
            return true;
        }
        let accepted = self.get_accepted_tokens();
        if !self.volume_totals_fit(&accepted) {
            return false;
        }
        self.accepted_volume_total() == 0 || token_volume.checked_mul(10_000).is_some()
    }

    /// `tokens` with their volumes, ranked by volume, highest first; tokens
    /// of equal volume keep their order.
    pub fn get_token_dominance_metrics(&self, env: &Env, tokens: &TokenList) -> (metrics: RankingList)
        requires
            running_totals_fit(self@.volume_entries(tokens@)),
        ensures
            ranks(metrics@, self@.volume_entries(tokens@)),
    {
        broadcast use vstd::seq_lib::to_multiset_build;
        let ghost entries = self@.volume_entries(tokens@);
        let n = tokens.len();
        let mut ranked = RankingList::new(env);
        let mut total_volume: i128 = 0;
        let mut i: u32 = 0;
        proof {
            assert(entries.take(0) =~= Seq::<(Addr, i128)>::empty());
            assert(ranked@ =~= entries.take(0));
        }
        while i < n
            invariant
                n == tokens@.len(),
                entries == self@.volume_entries(tokens@),
                running_totals_fit(entries),
                0 <= i <= n,
                ranked@.len() == i,
                ranks(ranked@, entries.take(i as int)),
                total_volume == volume_total(entries, i as int),
            decreases n - i,
        {
            let token = tokens.get(i);
            let volume = self.get_token_volume(token);
            proof {
                assert(entries[i as int] == (token, volume));
                assert(volume_total(entries, i + 1) == volume_total(entries, i as int) + volume);
                assert(i128::MIN <= volume_total(entries, i + 1) <= i128::MAX);
            }
            total_volume = total_volume + volume;
            let ghost before = ranked@;
            let len = ranked.len();
            let mut pos: u32 = 0;
            while pos < len && ranked.get(pos).1 >= volume
                invariant
                    len == ranked@.len(),
                    ranked@ == before,
                    0 <= pos <= len,
                    forall|k: int| 0 <= k < pos ==> ranked@[k].1 >= volume,
                decreases len - pos,
            {
                pos = pos + 1;
            }
            proof {
                lemma_insert_position(before, volume);
                let ip = insert_position(before, volume);
                if (pos as int) < ip {
                    assert(before[pos as int].1 >= volume);
                } else if ip < pos {
                    assert(before[ip].1 >= volume);
                }
                lemma_insert_ranked(before, (token, volume));
                let pre = entries.take(i as int);
                let post = entries.take(i + 1);
                assert(post =~= pre.push((token, volume)));
                assert(post =~= pre + seq![(token, volume)]);
                assert forall|w: i128| #[trigger] with_volume(post, w) == with_volume(pre, w) + with_volume(seq![(token, volume)], w) by {
                    lemma_with_volume_append(pre, seq![(token, volume)], w);
                }
            }
            ranked.insert(pos, (token, volume));
            proof {
                let x = (token, volume);
                let pre = entries.take(i as int);
                let post = entries.take(i + 1);
                let q = ranked@;
                assert(q == before.insert(insert_position(before, volume), x));
                assert(post =~= pre.push(x));
                vstd::seq_lib::to_multiset_build(pre, x);
                assert(post.to_multiset() == pre.to_multiset().insert(x));
                assert(q.to_multiset() == post.to_multiset());
                assert forall|w: i128| #[trigger] with_volume(q, w) == with_volume(post, w) by {
                    assert(with_volume(q, w) == with_volume(before, w) + with_volume(seq![x], w));
                    assert(with_volume(before, w) == with_volume(pre, w));
                }
                assert(ranks(q, post));
            }
            i = i + 1;
        }
        proof {
            assert(entries.take(n as int) =~= entries);
        }
        ranked
    }

    /// The accepted tokens ranked by volume, highest first, at most `limit`
    /// of them.
    pub fn get_top_tokens_by_volume(&self, env: &Env, limit: u32) -> (metrics: RankingList)
        requires
            running_totals_fit(self@.volume_entries(self@.accepted_tokens)),
        ensures
            exists|ranked: Seq<(Addr, i128)>| {
                &&& #[trigger] ranks(ranked, self@.volume_entries(self@.accepted_tokens))
                &&& metrics@ == ranked.take(if ranked.len() <= limit { ranked.len() as int } else { limit as int })
            },
    {
        let accepted = self.get_accepted_tokens();
        let mut all_metrics = self.get_token_dominance_metrics(env, &accepted);
        let ghost ranked = all_metrics@;
        while all_metrics.len() > limit
            invariant
                all_metrics@.len() <= ranked.len(),
                all_metrics@.len() == ranked.len() || all_metrics@.len() >= limit,
                all_metrics@ == ranked.take(all_metrics@.len() as int),
            decreases all_metrics@.len(),
        {
            all_metrics.pop();
            proof {
                assert(ranked.take(all_metrics@.len() as int) =~= all_metrics@);
            }
        }
        proof {
            if ranked.len() <= limit {
                assert(ranked.take(ranked.len() as int) =~= ranked);
            }
        }
        all_metrics
    }

    /// [`ShadeState::get_token_dominance_metrics`], or `None` where a running
    /// total of the volumes of `tokens` does not fit in `i128`.
    pub fn checked_token_dominance_metrics(&self, env: &Env, tokens: &TokenList) -> (r: Option<RankingList>)
        ensures
            r is None <==> !running_totals_fit(self@.volume_entries(tokens@)),
            r matches Some(metrics) ==> ranks(metrics@, self@.volume_entries(tokens@)),
    {
        if self.volume_totals_fit(tokens) {
            Some(self.get_token_dominance_metrics(env, tokens))
        } else {
            None
        }
    }

    /// [`ShadeState::get_top_tokens_by_volume`], or `None` where a running
    /// total of the volumes of the accepted tokens does not fit in `i128`.
    pub fn checked_top_tokens_by_volume(&self, env: &Env, limit: u32) -> (r: Option<RankingList>)
        ensures
            r is None <==> !running_totals_fit(self@.volume_entries(self@.accepted_tokens)),
            r matches Some(metrics) ==> exists|ranked: Seq<(Addr, i128)>| {
                &&& #[trigger] ranks(ranked, self@.volume_entries(self@.accepted_tokens))
                &&& metrics@ == ranked.take(if ranked.len() <= limit { ranked.len() as int } else { limit as int })
            },
    {
        let accepted = self.get_accepted_tokens();
        if self.volume_totals_fit(&accepted) {
            Some(self.get_top_tokens_by_volume(env, limit))
        } else {
            None
        }
    }

    /// [`ShadeState::get_token_market_share`], or `None` where the share
    /// cannot be computed within `i128`.
    pub fn checked_token_market_share(&self, token: Addr) -> (r: Option<i128>)
        ensures
            r is None <==> !self@.market_share_computable(token),
            r matches Some(share) ==> share == self@.market_share_of(token),
    {
        if self.market_share_fits(token) {
            Some(self.get_token_market_share(token))
        } else {
            None
        }
    }

    /// The sum of the volumes of all accepted tokens.
    fn accepted_volume_total(&self) -> (total: i128)
        requires
            running_totals_fit(self@.volume_entries(self@.accepted_tokens)),
        ensures
            total == volume_total(self@.volume_entries(self@.accepted_tokens), self@.accepted_tokens.len() as int),
    {
        let accepted = self.get_accepted_tokens();
        let ghost entries = self@.volume_entries(accepted@);
        let n = accepted.len();
        let mut total_volume: i128 = 0;
        let mut i: u32 = 0;
        while i < n
            invariant
                n == accepted@.len(),
                accepted@ == self@.accepted_tokens,
                entries == self@.volume_entries(accepted@),
                running_totals_fit(entries),
                0 <= i <= n,
                total_volume == volume_total(entries, i as int),
            decreases n - i,
        {
            let volume = self.get_token_volume(accepted.get(i));
            proof {
                assert(entries[i as int].1 == volume);
                assert(i128::MIN <= volume_total(entries, i + 1) <= i128::MAX);
            }
            total_volume = total_volume + volume;
            i = i + 1;
        }
        total_volume
    }

    /// The share of `token` in the volume of all accepted tokens, in basis
    /// points.
    pub fn get_token_market_share(&self, token: Addr) -> (share: i128)
        requires
            self@.market_share_computable(token),
        ensures
            share == self@.market_share_of(token),
    {
        let token_volume = self.get_token_volume(token);
        if token_volume == 0 {
            return 0;
        }
        let total_volume = self.accepted_volume_total();
        if total_volume == 0 {
            return 0;
        }
        let scaled = token_volume * 10000;
        proof {
            assert(scaled != i128::MIN);
        }
        div_toward_zero(scaled, total_volume)
    }
}

} // verus!
