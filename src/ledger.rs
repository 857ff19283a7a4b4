//! Sums of stakes and balances over the bet list and the balance table.
use crate::model::Bet;
use vstd::prelude::*;

verus! {

/// Total stake of the bets in `bets` that satisfy `p`.
pub open spec fn stake_sum(bets: Seq<Bet>, p: spec_fn(Bet) -> bool) -> int
    decreases bets.len(),
{
    if bets.len() == 0 {
        0
    } else {
        stake_sum(bets.drop_last(), p) + if p(bets.last()) {
            bets.last().amount as int
        } else {
            0
        }
    }
}

/// Sum of a sequence of amounts.
pub open spec fn amount_sum(s: Seq<u128>) -> int
    decreases s.len(),
{
    if s.len() == 0 {
        0
    } else {
        amount_sum(s.drop_last()) + s.last() as int
    }
}

/// Bets on outcome `o` of market `m`.
pub open spec fn on_outcome(m: int, o: int) -> spec_fn(Bet) -> bool {
    |b: Bet| b.market_id == m && b.outcome == o
}

/// Bets on market `m`.
pub open spec fn on_market(m: int) -> spec_fn(Bet) -> bool {
    |b: Bet| b.market_id == m
}

pub proof fn lemma_stake_sum_nonneg(bets: Seq<Bet>, p: spec_fn(Bet) -> bool)
    ensures
        stake_sum(bets, p) >= 0,
    decreases bets.len(),
{
    if bets.len() > 0 {
        lemma_stake_sum_nonneg(bets.drop_last(), p);
    }
}

/// A narrower filter never sums to more.
pub proof fn lemma_stake_sum_mono(bets: Seq<Bet>, p: spec_fn(Bet) -> bool, q: spec_fn(Bet) -> bool)
    requires
        forall|b: Bet| #[trigger] p(b) ==> q(b),
    ensures
        stake_sum(bets, p) <= stake_sum(bets, q),
    decreases bets.len(),
{
    if bets.len() > 0 {
        lemma_stake_sum_mono(bets.drop_last(), p, q);
    }
}

/// A prefix never sums to more.
pub proof fn lemma_stake_sum_prefix(bets: Seq<Bet>, k: int, p: spec_fn(Bet) -> bool)
    requires
        0 <= k <= bets.len(),
    ensures
        stake_sum(bets.subrange(0, k), p) <= stake_sum(bets, p),
    decreases bets.len() - k,
{
    if k < bets.len() {
        lemma_stake_sum_prefix(bets, k + 1, p);
        assert(bets.subrange(0, k + 1).drop_last() == bets.subrange(0, k));
    } else {
        assert(bets.subrange(0, k) == bets);
    }
}

/// Two bet lists that agree on the filter and the amounts sum alike.
pub proof fn lemma_stake_sum_congruent(
    b1: Seq<Bet>,
    b2: Seq<Bet>,
    p: spec_fn(Bet) -> bool,
    q: spec_fn(Bet) -> bool,
)
    requires
        b1.len() == b2.len(),
        forall|k: int|
            0 <= k < b1.len() ==> p(#[trigger] b1[k]) == q(b2[k]) && b1[k].amount == b2[k].amount,
    ensures
        stake_sum(b1, p) == stake_sum(b2, q),
    decreases b1.len(),
{
    if b1.len() > 0 {
        assert(p(b1[b1.len() - 1]) == q(b2[b2.len() - 1]));
        lemma_stake_sum_congruent(b1.drop_last(), b2.drop_last(), p, q);
    }
}

pub proof fn lemma_amount_sum_update(s: Seq<u128>, i: int, v: u128)
    requires
        0 <= i < s.len(),
    ensures
        amount_sum(s.update(i, v)) == amount_sum(s) - s[i] + v,
    decreases s.len(),
{
    if i < s.len() - 1 {
        assert(s.update(i, v).drop_last() == s.drop_last().update(i, v));
        lemma_amount_sum_update(s.drop_last(), i, v);
    } else {
        assert(s.update(i, v).drop_last() == s.drop_last());
    }
}

pub proof fn lemma_amount_sum_zeros(s: Seq<u128>)
    requires
        forall|k: int| 0 <= k < s.len() ==> s[k] == 0,
    ensures
        amount_sum(s) == 0,
    decreases s.len(),
{
    if s.len() > 0 {
        lemma_amount_sum_zeros(s.drop_last());
    }
}

/// Balance of `who` in a table of `(account, balance)` entries; the last
/// entry for an account holds its balance, absent accounts hold 0.
pub open spec fn balance_in(s: Seq<(String, u128)>, who: Seq<char>) -> int
    decreases s.len(),
{
    if s.len() == 0 {
        0
    } else if s.last().0@ == who {
        s.last().1 as int
    } else {
        balance_in(s.drop_last(), who)
    }
}

pub proof fn lemma_balance_absent(s: Seq<(String, u128)>, who: Seq<char>)
    requires
        forall|k: int| 0 <= k < s.len() ==> (#[trigger] s[k]).0@ != who,
    ensures
        balance_in(s, who) == 0,
    decreases s.len(),
{
    if s.len() > 0 {
        lemma_balance_absent(s.drop_last(), who);
    }
}

pub proof fn lemma_balance_last(s: Seq<(String, u128)>, i: int, who: Seq<char>)
    requires
        0 <= i < s.len(),
        s[i].0@ == who,
        forall|k: int| i < k < s.len() ==> (#[trigger] s[k]).0@ != who,
    ensures
        balance_in(s, who) == s[i].1,
    decreases s.len(),
{
    if i < s.len() - 1 {
        lemma_balance_last(s.drop_last(), i, who);
    }
}

pub proof fn lemma_balance_update(s: Seq<(String, u128)>, i: int, v: u128, who: Seq<char>)
    requires
        0 <= i < s.len(),
        s[i].0@ == who,
        forall|k: int| i < k < s.len() ==> (#[trigger] s[k]).0@ != who,
    ensures
        forall|w: Seq<char>|
            #[trigger] balance_in(s.update(i, (s[i].0, v)), w) == if w == who {
                v as int
            } else {
                balance_in(s, w)
            },
    decreases s.len(),
{
    let t = s.update(i, (s[i].0, v));
    if i < s.len() - 1 {
        lemma_balance_update(s.drop_last(), i, v, who);
        assert(t.drop_last() == s.drop_last().update(i, (s[i].0, v)));
        assert forall|w: Seq<char>| #[trigger]
            balance_in(t, w) == if w == who {
                v as int
            } else {
                balance_in(s, w)
            } by {
            assert(balance_in(t.drop_last(), w) == balance_in(s.drop_last().update(i, (s[i].0, v)), w));
        }
    } else {
        assert(t.drop_last() == s.drop_last());
    }
}

pub proof fn lemma_balance_push(s: Seq<(String, u128)>, e: (String, u128))
    ensures
        forall|w: Seq<char>|
            #[trigger] balance_in(s.push(e), w) == if w == e.0@ {
                e.1 as int
            } else {
                balance_in(s, w)
            },
{
    assert(s.push(e).drop_last() == s);
}


/// A positive sum has a bet that passes the filter.
pub proof fn lemma_stake_sum_witness(bets: Seq<Bet>, p: spec_fn(Bet) -> bool)
    requires
        stake_sum(bets, p) > 0,
    ensures
        exists|k: int| 0 <= k < bets.len() && p(#[trigger] bets[k]),
    decreases bets.len(),
{
    if p(bets.last()) {
        assert(p(bets[bets.len() - 1]));
    } else {
        lemma_stake_sum_witness(bets.drop_last(), p);
        let k = choose|k: int| 0 <= k < bets.drop_last().len() && p(#[trigger] bets.drop_last()[k]);
        assert(p(bets[k]));
    }
}


/// No bet passes the filter: the sum is 0.
pub proof fn lemma_stake_sum_none(bets: Seq<Bet>, p: spec_fn(Bet) -> bool)
    requires
        forall|k: int| 0 <= k < bets.len() ==> !p(#[trigger] bets[k]),
    ensures
        stake_sum(bets, p) == 0,
    decreases bets.len(),
{
    if bets.len() > 0 {
        assert(!p(bets[bets.len() - 1]));
        lemma_stake_sum_none(bets.drop_last(), p);
    }
}


/// A prefix never sums to more.
pub proof fn lemma_amount_sum_prefix(s: Seq<u128>, k: int)
    requires
        0 <= k <= s.len(),
    ensures
        amount_sum(s.subrange(0, k)) <= amount_sum(s),
    decreases s.len() - k,
{
    if k < s.len() {
        lemma_amount_sum_prefix(s, k + 1);
        assert(s.subrange(0, k + 1).drop_last() == s.subrange(0, k));
    } else {
        assert(s.subrange(0, k) == s);
    }
}

/// Sum of `v`, or `None` when it exceeds `u128::MAX`.
pub fn checked_amount_sum(v: &Vec<u128>) -> (r: Option<u128>)
    ensures
        r matches Some(t) ==> t == amount_sum(v@),
        r is None ==> amount_sum(v@) > u128::MAX,
{
    let mut t: u128 = 0;
    let mut k: usize = 0;
    while k < v.len()
        invariant
            k <= v@.len(),
            t == amount_sum(v@.subrange(0, k as int)),
        decreases v@.len() - k,
    {
        assert(v@.subrange(0, k + 1).drop_last() == v@.subrange(0, k as int));
        if t > u128::MAX - v[k] {
            proof {
                lemma_amount_sum_prefix(v@, k + 1);
            }
            return None;
        }
        t = t + v[k];
        k = k + 1;
    }
    assert(v@.subrange(0, v@.len() as int) == v@);
    Some(t)
}

/// Stake on market `m` (on outcome `o` when given), or `None` when it exceeds `u128::MAX`.
pub fn checked_stake_sum(bets: &Vec<Bet>, m: u64, o: Option<u32>) -> (r: Option<u128>)
    ensures
        ({
            let p = match o {
                Some(x) => on_outcome(m as int, x as int),
                None => on_market(m as int),
            };
            &&& r matches Some(t) ==> t == stake_sum(bets@, p)
            &&& r is None ==> stake_sum(bets@, p) > u128::MAX
        }),
{
    let ghost p = match o {
        Some(x) => on_outcome(m as int, x as int),
        None => on_market(m as int),
    };
    let mut t: u128 = 0;
    let mut k: usize = 0;
    while k < bets.len()
        invariant
            k <= bets@.len(),
            p == (match o {
                Some(x) => on_outcome(m as int, x as int),
                None => on_market(m as int),
            }),
            t == stake_sum(bets@.subrange(0, k as int), p),
        decreases bets@.len() - k,
    {
        assert(bets@.subrange(0, k + 1).drop_last() == bets@.subrange(0, k as int));
        let b = &bets[k];
        let hit = b.market_id == m && match o {
            Some(x) => b.outcome == x,
            None => true,
        };
        if hit {
            if t > u128::MAX - b.amount {
                proof {
                    lemma_stake_sum_prefix(bets@, k + 1, p);
                }
                return None;
            }
            t = t + b.amount;
        }
        k = k + 1;
    }
    assert(bets@.subrange(0, bets@.len() as int) == bets@);
    Some(t)
}

} // verus!
