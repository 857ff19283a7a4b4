//! The market store: balances, markets, bets, and the operations on them.
use crate::ledger::{
    amount_sum, balance_in, lemma_amount_sum_update, lemma_amount_sum_zeros, lemma_balance_absent,
    lemma_balance_last, lemma_balance_push, lemma_balance_update, on_market, on_outcome,
    stake_sum,
};
use crate::arith::safe_mul_div;
use crate::ledger::{checked_amount_sum, checked_stake_sum, lemma_stake_sum_none, lemma_stake_sum_witness, lemma_stake_sum_congruent, lemma_stake_sum_mono, lemma_stake_sum_nonneg, lemma_stake_sum_prefix};
use crate::model::{Bet, EventStatus, Market, MarketKind, MarketStatus, Verdict, UNRESOLVED, VOIDED};
use crate::numbers::{parse_u64, unsigned_value};
use crate::text::{byte_len, exceeds_bytes, str_eq};
use vstd::prelude::*;

verus! {

/// One native token in its smallest unit.
pub const ONE_NEAR: u128 = 1_000_000_000_000_000_000_000_000;

/// Smallest accepted stake: 0.1 token.
pub const MIN_BET: u128 = ONE_NEAR / 10;

/// Smallest deposit accepted with a delegated-compute resolution request.
pub const OUTLAYER_MIN_DEPOSIT: u128 = ONE_NEAR / 10;

pub const MIN_OUTCOMES: usize = 2;

pub const MAX_OUTCOMES: usize = 10;

/// Refusal of an operation; nothing was changed.
#[derive(Clone, Copy, Debug, PartialEq, Eq, Structural)]
pub enum ContractError {
    ZeroAmount,
    InsufficientBalance,
    BalanceOverflow,
    InvalidBetsEndDate,
    InvalidResolutionDate,
    BadQuestion,
    DescriptionTooLong,
    BadOutcomeCount,
    BetsEndNotInFuture,
    ResolutionBeforeBetsEnd,
    BadOutcomeLabel,
    DuplicateOutcomes,
    TooManyMarkets,
    StakeTooSmall,
    MarketNotFound,
    MarketNotActive,
    BettingClosed,
    InvalidOutcome,
    PoolOverflow,
    DepositTooSmall,
    OracleSourceNotSet,
    NotSportsMarket,
    AlreadySettled,
    TooEarly,
    NotSettled,
    AlreadyClaimed,
    NothingToClaim,
    NotOwner,
}

/// Where the oracle requests go.
#[derive(Clone, Debug)]
pub struct OracleConfig {
    /// Repository of the worker run by the delegated-execution service;
    /// empty until configured.
    pub source_repo: String,
    pub source_commit: String,
    pub outlayer_contract: String,
    pub tls_oracle_contract: String,
}

impl OracleConfig {
    pub fn copy(&self) -> (r: OracleConfig)
        ensures
            r == *self,
    {
        OracleConfig {
            source_repo: self.source_repo.clone(),
            source_commit: self.source_commit.clone(),
            outlayer_contract: self.outlayer_contract.clone(),
            tls_oracle_contract: self.tls_oracle_contract.clone(),
        }
    }
}

/// All markets, bets and balances.
pub struct NearCast {
    owner: String,
    oracle: String,
    /// Market `i` has id `i`.
    markets: Vec<Market>,
    /// Every accepted bet, in the order placed.
    bets: Vec<Bet>,
    /// `(account, balance)`; the last entry of an account counts.
    balances: Vec<(String, u128)>,
    total_volume: u128,
    config: OracleConfig,
}

/// A stored market is consistent with the bets placed on it.
pub open spec fn market_ok(m: Market, i: int, bets: Seq<Bet>) -> bool {
    &&& m.id == i
    &&& m.outcome_pools@.len() == m.outcomes@.len()
    &&& m.total_pool == amount_sum(m.outcome_pools@)
    &&& m.total_pool == stake_sum(bets, on_market(i))
    &&& forall|o: int|
        0 <= o < m.outcome_pools@.len() ==> #[trigger] m.outcome_pools@[o] == stake_sum(
            bets,
            on_outcome(i, o),
        )
    &&& m.status != MarketStatus::Closed
    &&& m.status == MarketStatus::Active ==> m.resolved_outcome == UNRESOLVED
    &&& m.status == MarketStatus::Voided ==> m.resolved_outcome == VOIDED
    &&& m.status == MarketStatus::Resolved ==> 0 <= m.resolved_outcome < m.outcomes@.len()
}

pub open spec fn is_settled(m: Market) -> bool {
    m.status == MarketStatus::Resolved || m.status == MarketStatus::Voided
}

/// A stored bet refers to a market and one of its outcomes, and is claimed
/// only once that market is settled.
pub open spec fn bet_ok(b: Bet, markets: Seq<Market>) -> bool {
    &&& b.market_id < markets.len()
    &&& b.outcome < markets[b.market_id as int].outcomes@.len()
    &&& b.claimed ==> is_settled(markets[b.market_id as int])
}

/// All fields of a market but its pools, its bet count, status and outcome agree.
pub open spec fn same_terms(a: Market, b: Market) -> bool {
    &&& a.id == b.id
    &&& a.creator == b.creator
    &&& a.question == b.question
    &&& a.description == b.description
    &&& a.outcomes == b.outcomes
    &&& a.category == b.category
    &&& a.created_at == b.created_at
    &&& a.bets_end_date == b.bets_end_date
    &&& a.resolution_date == b.resolution_date
    &&& a.espn_event_id == b.espn_event_id
    &&& a.sport == b.sport
    &&& a.league == b.league
    &&& a.market_type == b.market_type
}

impl NearCast {
    pub closed spec fn market_list(&self) -> Seq<Market> {
        self.markets@
    }

    pub closed spec fn bet_list(&self) -> Seq<Bet> {
        self.bets@
    }

    pub closed spec fn balance(&self, who: Seq<char>) -> int {
        balance_in(self.balances@, who)
    }

    pub closed spec fn volume(&self) -> int {
        self.total_volume as int
    }

    pub closed spec fn owner_id(&self) -> Seq<char> {
        self.owner@
    }

    pub closed spec fn oracle_id(&self) -> Seq<char> {
        self.oracle@
    }

    pub closed spec fn oracle_config(&self) -> OracleConfig {
        self.config
    }

    /// Markets and pools agree with the bets; every bet is well placed.
    pub closed spec fn wf(&self) -> bool {
        &&& forall|i: int|
            0 <= i < self.markets@.len() ==> market_ok(#[trigger] self.markets@[i], i, self.bets@)
        &&& forall|k: int| 0 <= k < self.bets@.len() ==> bet_ok(#[trigger] self.bets@[k], self.markets@)
    }

    /// A store with no markets, no bets and no balances, owned by `owner`;
    /// the oracle account defaults to the owner.
    pub fn new(owner: String, oracle: Option<String>) -> (r: NearCast)
        ensures
            r.wf(),
            r.market_list().len() == 0,
            r.bet_list().len() == 0,
            forall|w: Seq<char>| #[trigger] r.balance(w) == 0,
            r.volume() == 0,
            r.owner_id() == owner@,
            r.oracle_id() == (match oracle {
                Some(o) => o@,
                None => owner@,
            }),
            r.oracle_config().source_repo@.len() == 0,
            r.oracle_config().source_commit@ == "main"@,
            r.oracle_config().outlayer_contract@ == "outlayer.testnet"@,
            r.oracle_config().tls_oracle_contract@ == "tls-oracle-v2.nearcast-oracle.testnet"@,
    {
        let oracle = match oracle {
            Some(o) => o,
            None => owner.clone(),
        };
        let r = NearCast {
            owner,
            oracle,
            markets: Vec::new(),
            bets: Vec::new(),
            balances: Vec::new(),
            total_volume: 0,
            config: OracleConfig {
                source_repo: String::new(),
                source_commit: "main".to_owned(),
                outlayer_contract: "outlayer.testnet".to_owned(),
                tls_oracle_contract: "tls-oracle-v2.nearcast-oracle.testnet".to_owned(),
            },
        };
        assert forall|w: Seq<char>| #[trigger] r.balance(w) == 0 by {
            lemma_balance_absent(r.balances@, w);
        }
        r
    }

    /// Position of the entry that holds `who`'s balance.
    fn balance_slot(&self, who: &String) -> (r: Option<usize>)
        ensures
            r matches Some(i) ==> i < self.balances@.len() && self.balances@[i as int].0@ == who@
                && forall|k: int| i < k < self.balances@.len() ==> (#[trigger] self.balances@[k]).0@ != who@,
            r is None ==> forall|k: int| 0 <= k < self.balances@.len() ==> (#[trigger] self.balances@[k]).0@ != who@,
    {
        let mut i = self.balances.len();
        while i > 0
            invariant
                i <= self.balances@.len(),
                forall|k: int| i <= k < self.balances@.len() ==> (#[trigger] self.balances@[k]).0@ != who@,
            decreases i,
        {
            i = i - 1;
            if self.balances[i].0 == *who {
                return Some(i);
            }
        }
        None
    }

    /// Balance of `account_id`; 0 for an account never credited.
    pub fn get_balance(&self, account_id: &String) -> (r: u128)
        ensures
            r == self.balance(account_id@),
    {
        match self.balance_slot(account_id) {
            Some(i) => {
                proof {
                    lemma_balance_last(self.balances@, i as int, account_id@);
                }
                self.balances[i].1
            },
            None => {
                proof {
                    lemma_balance_absent(self.balances@, account_id@);
                }
                0
            },
        }
    }

    fn set_balance(&mut self, who: &String, v: u128)
        ensures
            forall|w: Seq<char>|
                #[trigger] final(self).balance(w) == if w == who@ {
                    v as int
                } else {
                    old(self).balance(w)
                },
            final(self).markets == old(self).markets,
            final(self).bets == old(self).bets,
            final(self).total_volume == old(self).total_volume,
            final(self).owner == old(self).owner,
            final(self).oracle == old(self).oracle,
            final(self).config == old(self).config,
    {
        match self.balance_slot(who) {
            Some(i) => {
                proof {
                    lemma_balance_update(self.balances@, i as int, v, who@);
                }
                let name = self.balances[i].0.clone();
                self.balances.set(i, (name, v));
            },
            None => {
                let entry = (who.clone(), v);
                proof {
                    lemma_balance_push(self.balances@, entry);
                }
                self.balances.push(entry);
            },
        }
    }

    /// Credits `amount` to `sender`'s balance.
    pub fn deposit(&mut self, sender: &String, amount: u128) -> (r: Result<(), ContractError>)
        requires
            old(self).wf(),
        ensures
            final(self).wf(),
            amount == 0 ==> r == Err::<(), ContractError>(ContractError::ZeroAmount),
            amount > 0 && old(self).balance(sender@) + amount > u128::MAX ==> r == Err::<
                (),
                ContractError,
            >(ContractError::BalanceOverflow),
            amount > 0 && old(self).balance(sender@) + amount <= u128::MAX ==> r is Ok,
            r is Err ==> *final(self) == *old(self),
            r is Ok ==> forall|w: Seq<char>|
                #[trigger] final(self).balance(w) == if w == sender@ {
                    old(self).balance(w) + amount
                } else {
                    old(self).balance(w)
                },
            final(self).market_list() == old(self).market_list(),
            final(self).bet_list() == old(self).bet_list(),
    {
        if amount == 0 {
            return Err(ContractError::ZeroAmount);
        }
        let current = self.get_balance(sender);
        if current > u128::MAX - amount {
            return Err(ContractError::BalanceOverflow);
        }
        self.set_balance(sender, current + amount);
        Ok(())
    }

    /// Debits `amount` from `sender`'s balance; the caller pays it out.
    pub fn withdraw(&mut self, sender: &String, amount: u128) -> (r: Result<u128, ContractError>)
        requires
            old(self).wf(),
        ensures
            final(self).wf(),
            amount == 0 ==> r == Err::<u128, ContractError>(ContractError::ZeroAmount),
            amount > 0 && old(self).balance(sender@) < amount ==> r == Err::<u128, ContractError>(
                ContractError::InsufficientBalance,
            ),
            amount > 0 && old(self).balance(sender@) >= amount ==> r == Ok::<u128, ContractError>(
                amount,
            ),
            r is Err ==> *final(self) == *old(self),
            r is Ok ==> forall|w: Seq<char>|
                #[trigger] final(self).balance(w) == if w == sender@ {
                    old(self).balance(w) - amount
                } else {
                    old(self).balance(w)
                },
            final(self).market_list() == old(self).market_list(),
            final(self).bet_list() == old(self).bet_list(),
    {
        if amount == 0 {
            return Err(ContractError::ZeroAmount);
        }
        let current = self.get_balance(sender);
        if current < amount {
            return Err(ContractError::InsufficientBalance);
        }
        self.set_balance(sender, current - amount);
        Ok(amount)
    }
}


/// Why `place_bet` would refuse, checked in this order, or `None`.
pub open spec fn place_bet_error(
    s: NearCast,
    who: Seq<char>,
    now: u64,
    market_id: u64,
    outcome: u32,
    amount: u128,
) -> Option<ContractError> {
    let m = s.market_list()[market_id as int];
    if amount < MIN_BET {
        Some(ContractError::StakeTooSmall)
    } else if s.balance(who) < amount {
        Some(ContractError::InsufficientBalance)
    } else if market_id >= s.market_list().len() {
        Some(ContractError::MarketNotFound)
    } else if m.status != MarketStatus::Active {
        Some(ContractError::MarketNotActive)
    } else if now >= m.bets_end_date {
        Some(ContractError::BettingClosed)
    } else if outcome >= m.outcomes@.len() {
        Some(ContractError::InvalidOutcome)
    } else if m.outcome_pools@[outcome as int] + amount > u128::MAX || m.total_pool + amount
        > u128::MAX || m.total_bets == u32::MAX || s.volume() + amount > u128::MAX {
        Some(ContractError::PoolOverflow)
    } else {
        None
    }
}

impl NearCast {
    /// Stakes `amount` from `sender`'s balance on `outcome` of market `market_id`:
    /// the bet is recorded, and the outcome's pool and the market's total pool
    /// grow by exactly `amount`.
    pub fn place_bet(
        &mut self,
        sender: &String,
        now: u64,
        market_id: u64,
        outcome: u32,
        amount: u128,
    ) -> (r: Result<(), ContractError>)
        requires
            old(self).wf(),
        ensures
            final(self).wf(),
            r matches Err(e) ==> place_bet_error(*old(self), sender@, now, market_id, outcome, amount)
                == Some(e),
            r is Ok <==> place_bet_error(*old(self), sender@, now, market_id, outcome, amount) is None,
            r is Err ==> *final(self) == *old(self),
            r is Ok ==> {
                let m0 = old(self).market_list()[market_id as int];
                let m1 = final(self).market_list()[market_id as int];
                &&& final(self).bet_list() == old(self).bet_list().push(
                    Bet {
                        market_id,
                        user: *sender,
                        outcome,
                        amount,
                        timestamp: now,
                        claimed: false,
                    },
                )
                &&& final(self).market_list().len() == old(self).market_list().len()
                &&& forall|j: int|
                    0 <= j < old(self).market_list().len() && j != market_id
                        ==> #[trigger] final(self).market_list()[j] == old(self).market_list()[j]
                &&& m1.outcome_pools@ == m0.outcome_pools@.update(
                    outcome as int,
                    (m0.outcome_pools@[outcome as int] + amount) as u128,
                )
                &&& m1.total_pool == m0.total_pool + amount
                &&& m1.total_bets == m0.total_bets + 1
                &&& m1.status == m0.status && m1.resolved_outcome == m0.resolved_outcome
                &&& same_terms(m0, m1)
                &&& forall|w: Seq<char>|
                    #[trigger] final(self).balance(w) == if w == sender@ {
                        old(self).balance(w) - amount
                    } else {
                        old(self).balance(w)
                    }
                &&& final(self).volume() == old(self).volume() + amount
            },
            final(self).owner_id() == old(self).owner_id(),
            final(self).oracle_config() == old(self).oracle_config(),
    {
        if amount < MIN_BET {
            return Err(ContractError::StakeTooSmall);
        }
        let balance = self.get_balance(sender);
        if balance < amount {
            return Err(ContractError::InsufficientBalance);
        }
        if market_id >= self.markets.len() as u64 {
            return Err(ContractError::MarketNotFound);
        }
        let i = market_id as usize;
        if self.markets[i].status != MarketStatus::Active {
            return Err(ContractError::MarketNotActive);
        }
        if now >= self.markets[i].bets_end_date {
            return Err(ContractError::BettingClosed);
        }
        if outcome as usize >= self.markets[i].outcomes.len() {
            return Err(ContractError::InvalidOutcome);
        }
        let o = outcome as usize;
        proof {
            assert(market_ok(self.markets@[i as int], i as int, self.bets@));
        }
        let pool = self.markets[i].outcome_pools[o];
        let total = self.markets[i].total_pool;
        if pool > u128::MAX - amount || total > u128::MAX - amount || self.markets[i].total_bets
            == u32::MAX || self.total_volume > u128::MAX - amount {
            return Err(ContractError::PoolOverflow);
        }
        let ghost old_bets = self.bets@;
        let ghost old_markets = self.markets@;
        proof {
            lemma_amount_sum_update(old_markets[i as int].outcome_pools@, o as int, (pool + amount) as u128);
        }
        self.markets[i].outcome_pools.set(o, pool + amount);
        self.markets[i].total_pool = total + amount;
        self.markets[i].total_bets = self.markets[i].total_bets + 1;
        let bet = Bet {
            market_id,
            user: sender.clone(),
            outcome,
            amount,
            timestamp: now,
            claimed: false,
        };
        let ghost gb = bet;
        self.bets.push(bet);
        self.total_volume = self.total_volume + amount;
        proof {
            let nb = self.bets@;
            assert(nb.drop_last() == old_bets);
            assert(nb.last() == gb);
            assert forall|j: int| 0 <= j < self.markets@.len() implies market_ok(
                #[trigger] self.markets@[j],
                j,
                self.bets@,
            ) by {
                assert(market_ok(old_markets[j], j, old_bets));
                let m = self.markets@[j];
                assert(stake_sum(nb, on_market(j)) == stake_sum(old_bets, on_market(j)) + if j == i {
                    amount as int
                } else {
                    0
                });
                assert forall|q: int| 0 <= q < m.outcome_pools@.len() implies #[trigger] m.outcome_pools@[q]
                    == stake_sum(nb, on_outcome(j, q)) by {
                    assert(stake_sum(nb, on_outcome(j, q)) == stake_sum(old_bets, on_outcome(j, q))
                        + if j == i && q == o {
                        amount as int
                    } else {
                        0
                    });
                }
            }
            assert forall|k: int| 0 <= k < self.bets@.len() implies bet_ok(
                #[trigger] self.bets@[k],
                self.markets@,
            ) by {
                if k < old_bets.len() {
                    assert(bet_ok(old_bets[k], old_markets));
                }
            }
        }
        self.set_balance(sender, balance - amount);
        Ok(())
    }
}

/// In every well-formed store, each market's total pool is the sum of its
/// outcome pools, and each outcome pool is the sum of the stakes on it.
pub proof fn pools_balanced(s: &NearCast)
    requires
        s.wf(),
    ensures
        forall|i: int|
            0 <= i < s.market_list().len() ==> #[trigger] s.market_list()[i].total_pool
                == amount_sum(s.market_list()[i].outcome_pools@),
        forall|i: int, o: int|
            0 <= i < s.market_list().len() && 0 <= o < s.market_list()[i].outcome_pools@.len()
                ==> #[trigger] s.market_list()[i].outcome_pools@[o] == stake_sum(
                s.bet_list(),
                on_outcome(i, o),
            ),
{
    assert forall|i: int| 0 <= i < s.market_list().len() implies #[trigger] s.market_list()[i].total_pool
        == amount_sum(s.market_list()[i].outcome_pools@) by {
        assert(market_ok(s.markets@[i], i, s.bets@));
    }
    assert forall|i: int, o: int|
        0 <= i < s.market_list().len() && 0 <= o < s.market_list()[i].outcome_pools@.len()
            implies #[trigger] s.market_list()[i].outcome_pools@[o] == stake_sum(
            s.bet_list(),
            on_outcome(i, o),
        ) by {
        assert(market_ok(s.markets@[i], i, s.bets@));
    }
}


/// Verdicts below this confidence, in percent, void the market.
pub const VOID_CONFIDENCE: u8 = 30;

/// What `apply_resolution` did.
#[derive(Clone, Copy, Debug, PartialEq, Eq, Structural)]
pub enum ResolutionEffect {
    MarketMissing,
    /// The market was already resolved or voided.
    AlreadySettled,
    /// The event is not final; the market stays open to resolution.
    Pending,
    Voided,
    Resolved,
    /// An outcome index out of range; nothing changed.
    Ignored,
}

pub open spec fn is_open(m: Market) -> bool {
    m.status == MarketStatus::Active || m.status == MarketStatus::Closed
}

/// The market after a verdict `(outcome, confidence)` on an event that is or
/// is not final.
pub open spec fn resolution_step(m: Market, outcome: int, confidence: int, is_final: bool) -> Market {
    if !is_open(m) || !is_final {
        m
    } else if outcome == -1 || confidence < VOID_CONFIDENCE {
        Market { status: MarketStatus::Voided, resolved_outcome: VOIDED, ..m }
    } else if 0 <= outcome < m.outcomes@.len() {
        Market { status: MarketStatus::Resolved, resolved_outcome: outcome as i32, ..m }
    } else {
        m
    }
}

/// A settled market does not change under any later verdict.
pub proof fn settled_is_final(m: Market, outcome: int, confidence: int, is_final: bool)
    requires
        is_settled(m),
    ensures
        resolution_step(m, outcome, confidence, is_final) == m,
{
}

/// Applying a second verdict after one that settled the market is a no-op.
pub proof fn resolution_idempotent(
    m: Market,
    outcome1: int,
    confidence1: int,
    final1: bool,
    outcome2: int,
    confidence2: int,
    final2: bool,
)
    requires
        is_settled(resolution_step(m, outcome1, confidence1, final1)),
    ensures
        resolution_step(resolution_step(m, outcome1, confidence1, final1), outcome2, confidence2, final2)
            == resolution_step(m, outcome1, confidence1, final1),
{
    settled_is_final(resolution_step(m, outcome1, confidence1, final1), outcome2, confidence2, final2);
}

impl NearCast {
    /// Applies a verdict to an open market once the event is final: voids
    /// it when the verdict is indeterminate or under `VOID_CONFIDENCE`,
    /// resolves it on an in-range outcome; otherwise changes nothing.
    pub fn apply_resolution(&mut self, market_id: u64, verdict: &Verdict, status: &EventStatus) -> (r:
        ResolutionEffect)
        requires
            old(self).wf(),
        ensures
            final(self).wf(),
            market_id < old(self).market_list().len() ==> final(self).market_list()
                == old(self).market_list().update(
                market_id as int,
                resolution_step(
                    old(self).market_list()[market_id as int],
                    verdict.outcome as int,
                    verdict.confidence as int,
                    status is Final,
                ),
            ),
            market_id >= old(self).market_list().len() ==> r == ResolutionEffect::MarketMissing
                && final(self).market_list() == old(self).market_list(),
            market_id < old(self).market_list().len() ==> {
                let m = old(self).market_list()[market_id as int];
                &&& !is_open(m) ==> r == ResolutionEffect::AlreadySettled
                &&& is_open(m) && !(status is Final) ==> r == ResolutionEffect::Pending
                &&& r == ResolutionEffect::Voided <==> final(self).market_list()[market_id as int].status
                    == MarketStatus::Voided && is_open(m)
                &&& r == ResolutionEffect::Resolved <==> final(self).market_list()[market_id as int].status
                    == MarketStatus::Resolved && is_open(m)
            },
            final(self).bet_list() == old(self).bet_list(),
            forall|w: Seq<char>| #[trigger] final(self).balance(w) == old(self).balance(w),
            final(self).volume() == old(self).volume(),
            final(self).owner_id() == old(self).owner_id(),
            final(self).oracle_config() == old(self).oracle_config(),
    {
        if market_id >= self.markets.len() as u64 {
            return ResolutionEffect::MarketMissing;
        }
        let i = market_id as usize;
        let ghost old_markets = self.markets@;
        proof {
            assert(market_ok(old_markets[i as int], i as int, self.bets@));
        }
        let st = self.markets[i].status;
        if st != MarketStatus::Active && st != MarketStatus::Closed {
            assert(self.markets@ == old_markets.update(i as int, old_markets[i as int]));
            return ResolutionEffect::AlreadySettled;
        }
        match status {
            EventStatus::Final => {},
            _ => {
                assert(self.markets@ == old_markets.update(i as int, old_markets[i as int]));
                return ResolutionEffect::Pending;
            },
        }
        let effect;
        if verdict.outcome == -1 || verdict.confidence < VOID_CONFIDENCE {
            self.markets[i].resolved_outcome = VOIDED;
            self.markets[i].status = MarketStatus::Voided;
            effect = ResolutionEffect::Voided;
        } else if verdict.outcome >= 0 && (verdict.outcome as usize) < self.markets[i].outcomes.len() {
            self.markets[i].resolved_outcome = verdict.outcome;
            self.markets[i].status = MarketStatus::Resolved;
            effect = ResolutionEffect::Resolved;
        } else {
            assert(self.markets@ == old_markets.update(i as int, old_markets[i as int]));
            return ResolutionEffect::Ignored;
        }
        proof {
            assert(self.markets@ =~= old_markets.update(
                i as int,
                resolution_step(old_markets[i as int], verdict.outcome as int, verdict.confidence as int, true),
            ));
            assert forall|j: int| 0 <= j < self.markets@.len() implies market_ok(
                #[trigger] self.markets@[j],
                j,
                self.bets@,
            ) by {
                assert(market_ok(old_markets[j], j, self.bets@));
            }
            assert forall|k: int| 0 <= k < self.bets@.len() implies bet_ok(
                #[trigger] self.bets@[k],
                self.markets@,
            ) by {
                assert(bet_ok(self.bets@[k], old_markets));
            }
        }
        effect
    }
}

/// The bets that a claim by `who` on market `m` pays: all of `who`'s bets on
/// `m` when voided, those on the winning outcome otherwise.
pub open spec fn claim_pred(m: int, who: Seq<char>, voided: bool, winner: int) -> spec_fn(Bet) -> bool {
    |b: Bet| b.market_id == m && b.user@ == who && (voided || b.outcome == winner)
}

pub open spec fn claim_filter(s: NearCast, m: int, who: Seq<char>) -> spec_fn(Bet) -> bool {
    let mk = s.market_list()[m];
    claim_pred(m, who, mk.status == MarketStatus::Voided, mk.resolved_outcome as int)
}

/// What a claim pays: the stakes of the claimed bets; on a resolved market
/// scaled by total pool over winning pool, rounded down.
pub open spec fn payout_of(s: NearCast, m: int, who: Seq<char>) -> int {
    let mk = s.market_list()[m];
    let stake = stake_sum(s.bet_list(), claim_filter(s, m, who));
    if mk.status == MarketStatus::Voided {
        stake
    } else {
        let wp = mk.outcome_pools@[mk.resolved_outcome as int] as int;
        if stake > 0 && wp > 0 {
            (stake * mk.total_pool) / wp
        } else {
            stake
        }
    }
}

/// Why `claim_winnings` would refuse, checked in this order, or `None`.
pub open spec fn claim_error(s: NearCast, m: u64, who: Seq<char>) -> Option<ContractError> {
    if m >= s.market_list().len() {
        Some(ContractError::MarketNotFound)
    } else if !is_settled(s.market_list()[m as int]) {
        Some(ContractError::NotSettled)
    } else if exists|k: int|
        0 <= k < s.bet_list().len() && claim_filter(s, m as int, who)(#[trigger] s.bet_list()[k])
            && s.bet_list()[k].claimed {
        Some(ContractError::AlreadyClaimed)
    } else if payout_of(s, m as int, who) == 0 {
        Some(ContractError::NothingToClaim)
    } else if s.balance(who) + payout_of(s, m as int, who) > u128::MAX {
        Some(ContractError::BalanceOverflow)
    } else {
        None
    }
}

/// `s1` is `s0` after a successful claim by `who` on market `m` paying `payout`.
pub open spec fn claim_step(s0: NearCast, s1: NearCast, m: u64, who: Seq<char>, payout: int) -> bool {
    &&& s1.market_list() == s0.market_list()
    &&& s1.bet_list().len() == s0.bet_list().len()
    &&& forall|k: int|
        0 <= k < s0.bet_list().len() ==> #[trigger] s1.bet_list()[k] == (Bet {
            claimed: s0.bet_list()[k].claimed || claim_filter(s0, m as int, who)(s0.bet_list()[k]),
            ..s0.bet_list()[k]
        })
    &&& forall|w: Seq<char>|
        #[trigger] s1.balance(w) == if w == who {
            s0.balance(w) + payout
        } else {
            s0.balance(w)
        }
    &&& s1.volume() == s0.volume()
}

impl NearCast {
    /// Pays `sender` what market `market_id` owes them once it is settled:
    /// a full refund of their stakes when voided, their pari-mutuel share
    /// when resolved. Every paid bet is marked claimed; a claim that meets an
    /// already claimed bet, or that would pay nothing, is refused whole.
    pub fn claim_winnings(&mut self, sender: &String, market_id: u64) -> (r: Result<u128, ContractError>)
        requires
            old(self).wf(),
        ensures
            final(self).wf(),
            r matches Err(e) ==> claim_error(*old(self), market_id, sender@) == Some(e),
            r is Ok <==> claim_error(*old(self), market_id, sender@) is None,
            r is Err ==> *final(self) == *old(self),
            r matches Ok(p) ==> p == payout_of(*old(self), market_id as int, sender@) && claim_step(
                *old(self),
                *final(self),
                market_id,
                sender@,
                p as int,
            ),
            final(self).owner_id() == old(self).owner_id(),
            final(self).oracle_config() == old(self).oracle_config(),
    {
        if market_id >= self.markets.len() as u64 {
            return Err(ContractError::MarketNotFound);
        }
        let i = market_id as usize;
        let ghost s0 = *self;
        let ghost bets0 = self.bets@;
        proof {
            assert(market_ok(self.markets@[i as int], i as int, bets0));
        }
        let st = self.markets[i].status;
        if st != MarketStatus::Resolved && st != MarketStatus::Voided {
            return Err(ContractError::NotSettled);
        }
        let voided = st == MarketStatus::Voided;
        let winner = self.markets[i].resolved_outcome;
        let ghost filter = claim_filter(s0, i as int, sender@);
        proof {
            if voided {
                lemma_stake_sum_mono(bets0, filter, on_market(i as int));
            } else {
                lemma_stake_sum_mono(bets0, filter, on_outcome(i as int, winner as int));
            }
        }
        let mut stake: u128 = 0;
        let mut k: usize = 0;
        while k < self.bets.len()
            invariant
                *self == s0,
                s0 == *old(self),
                s0.wf(),
                bets0 == self.bets@,
                i == market_id,
                i < self.markets@.len(),
                filter == claim_filter(s0, i as int, sender@),
                voided == (self.markets@[i as int].status == MarketStatus::Voided),
                winner == self.markets@[i as int].resolved_outcome,
                !voided ==> 0 <= winner,
                k <= bets0.len(),
                stake == stake_sum(bets0.subrange(0, k as int), filter),
                stake_sum(bets0, filter) <= u128::MAX,
                forall|j: int| 0 <= j < k ==> !(filter(#[trigger] bets0[j]) && bets0[j].claimed),
            decreases bets0.len() - k,
        {
            let b = &self.bets[k];
            assert(bets0.subrange(0, k + 1).drop_last() == bets0.subrange(0, k as int));
            if b.market_id == market_id && b.user == *sender && (voided || b.outcome == winner as u32) {
                if b.claimed {
                    assert(filter(bets0[k as int]) && bets0[k as int].claimed);
                    return Err(ContractError::AlreadyClaimed);
                }
                proof {
                    lemma_stake_sum_prefix(bets0, k + 1, filter);
                }
                stake = stake + b.amount;
            }
            k = k + 1;
        }
        assert(bets0.subrange(0, bets0.len() as int) == bets0);
        let mut payout = stake;
        if !voided && stake > 0 {
            let total = self.markets[i].total_pool;
            let pool = self.markets[i].outcome_pools[winner as usize];
            if pool > 0 {
                proof {
                    let a = stake as int;
                    let t = total as int;
                    let w = pool as int;
                    assert(a * t <= w * t) by (nonlinear_arith)
                        requires a <= w, t >= 0;
                    vstd::arithmetic::div_mod::lemma_multiply_divide_le(a * t, w, t);
                }
                payout = safe_mul_div(stake, total, pool);
            }
        }
        if payout == 0 {
            return Err(ContractError::NothingToClaim);
        }
        let current = self.get_balance(sender);
        if current > u128::MAX - payout {
            return Err(ContractError::BalanceOverflow);
        }
        let mut k: usize = 0;
        while k < self.bets.len()
            invariant
                self.markets == s0.markets,
                self.balances == s0.balances,
                self.total_volume == s0.total_volume,
                self.owner == s0.owner,
                self.oracle == s0.oracle,
                self.config == s0.config,
                bets0 == s0.bets@,
                i == market_id,
                i < self.markets@.len(),
                filter == claim_filter(s0, i as int, sender@),
                voided == (self.markets@[i as int].status == MarketStatus::Voided),
                winner == self.markets@[i as int].resolved_outcome,
                !voided ==> 0 <= winner,
                self.bets@.len() == bets0.len(),
                k <= bets0.len(),
                forall|j: int| 0 <= j < k ==> #[trigger] self.bets@[j] == (Bet {
                    claimed: bets0[j].claimed || filter(bets0[j]),
                    ..bets0[j]
                }),
                forall|j: int| k <= j < bets0.len() ==> #[trigger] self.bets@[j] == bets0[j],
            decreases bets0.len() - k,
        {
            if self.bets[k].market_id == market_id && self.bets[k].user == *sender && (voided
                || self.bets[k].outcome == winner as u32) {
                self.bets[k].claimed = true;
            }
            k = k + 1;
        }
        proof {
            let nb = self.bets@;
            assert forall|j: int| 0 <= j < self.markets@.len() implies market_ok(
                #[trigger] self.markets@[j],
                j,
                nb,
            ) by {
                let m = self.markets@[j];
                assert(market_ok(m, j, bets0));
                lemma_stake_sum_congruent(nb, bets0, on_market(j), on_market(j));
                assert forall|q: int| 0 <= q < m.outcome_pools@.len() implies #[trigger] m.outcome_pools@[q]
                    == stake_sum(nb, on_outcome(j, q)) by {
                    lemma_stake_sum_congruent(nb, bets0, on_outcome(j, q), on_outcome(j, q));
                }
            }
            assert forall|k: int| 0 <= k < nb.len() implies bet_ok(#[trigger] nb[k], self.markets@) by {
                assert(bet_ok(bets0[k], self.markets@));
            }
        }
        self.set_balance(sender, current + payout);
        Ok(payout)
    }
}


/// `who`'s bets on market `m`, whatever their outcome.
pub open spec fn stakes_of(m: int, who: Seq<char>) -> spec_fn(Bet) -> bool {
    |b: Bet| b.market_id == m && b.user@ == who
}

/// A successful claim leaves nothing to claim again: a second claim by the
/// same account on the same market is refused.
pub proof fn claim_only_once(s0: NearCast, s1: NearCast, m: u64, who: Seq<char>, payout: int)
    requires
        claim_error(s0, m, who) is None,
        payout == payout_of(s0, m as int, who),
        claim_step(s0, s1, m, who, payout),
    ensures
        claim_error(s1, m, who) == Some(ContractError::AlreadyClaimed),
        forall|k: int|
            0 <= k < s1.bet_list().len() && claim_filter(s1, m as int, who)(#[trigger] s1.bet_list()[k])
                ==> s1.bet_list()[k].claimed,
{
    let f = claim_filter(s0, m as int, who);
    let stake = stake_sum(s0.bet_list(), f);
    lemma_stake_sum_nonneg(s0.bet_list(), f);
    if stake == 0 {
        assert(payout_of(s0, m as int, who) == 0);
    }
    lemma_stake_sum_witness(s0.bet_list(), f);
    let k = choose|k: int| 0 <= k < s0.bet_list().len() && f(#[trigger] s0.bet_list()[k]);
    assert(claim_filter(s1, m as int, who)(s1.bet_list()[k]) && s1.bet_list()[k].claimed);
    assert forall|j: int|
        0 <= j < s1.bet_list().len() && claim_filter(s1, m as int, who)(#[trigger] s1.bet_list()[j])
            implies s1.bet_list()[j].claimed by {
        assert(f(s0.bet_list()[j]));
    }
}

/// On a voided market a claim refunds exactly the claimant's stakes on that
/// market and marks every one of those bets claimed.
pub proof fn void_claim_refunds(s0: NearCast, s1: NearCast, m: u64, who: Seq<char>, payout: int)
    requires
        m < s0.market_list().len(),
        s0.market_list()[m as int].status == MarketStatus::Voided,
        payout == payout_of(s0, m as int, who),
        claim_step(s0, s1, m, who, payout),
    ensures
        payout == stake_sum(s0.bet_list(), stakes_of(m as int, who)),
        forall|k: int|
            0 <= k < s1.bet_list().len() && stakes_of(m as int, who)(#[trigger] s1.bet_list()[k])
                ==> s1.bet_list()[k].claimed,
        s1.balance(who) == s0.balance(who) + payout,
{
    let f = claim_filter(s0, m as int, who);
    lemma_stake_sum_congruent(s0.bet_list(), s0.bet_list(), f, stakes_of(m as int, who));
    assert forall|k: int|
        0 <= k < s1.bet_list().len() && stakes_of(m as int, who)(#[trigger] s1.bet_list()[k])
            implies s1.bet_list()[k].claimed by {
        assert(f(s0.bet_list()[k]));
    }
}


impl NearCast {
    /// The stored market `market_id`, if any.
    pub fn market(&self, market_id: u64) -> (r: Option<&Market>)
        ensures
            market_id < self.market_list().len() ==> r == Some(&self.market_list()[market_id as int]),
            market_id >= self.market_list().len() ==> r is None,
    {
        if market_id >= self.markets.len() as u64 {
            None
        } else {
            Some(&self.markets[market_id as usize])
        }
    }

    /// Number of markets ever created; the next market gets this id.
    pub fn market_count(&self) -> (r: u64)
        ensures
            r == self.market_list().len(),
    {
        self.markets.len() as u64
    }

    /// Where oracle requests go.
    pub fn get_outlayer_config(&self) -> (r: OracleConfig)
        ensures
            r == self.oracle_config(),
    {
        self.config.copy()
    }
}


pub const MAX_QUESTION_BYTES: usize = 500;

pub const MAX_DESCRIPTION_BYTES: usize = 2000;

pub const MAX_LABEL_BYTES: usize = 200;

/// Number of bytes in the UTF-8 encoding of `s`.
pub open spec fn utf8_len(s: Seq<char>) -> int {
    byte_len(s) as int
}

/// A timestamp given as text, read as `u64`.
pub open spec fn timestamp_of(s: Seq<char>) -> Option<u64> {
    match unsigned_value(s) {
        Some(v) => if v <= u64::MAX { Some(v as u64) } else { None },
        None => None,
    }
}

pub open spec fn bad_label(l: Seq<char>) -> bool {
    l.len() == 0 || utf8_len(l) > MAX_LABEL_BYTES
}

/// First problem met when checking labels `0..n` in order: a label that is
/// empty or too long, or a label that a later one repeats.
pub open spec fn outcome_problem(outs: Seq<String>, n: nat) -> Option<ContractError>
    decreases n,
{
    if n == 0 {
        None
    } else {
        match outcome_problem(outs, (n - 1) as nat) {
            Some(e) => Some(e),
            None => {
                let i = n - 1;
                if bad_label(outs[i]@) {
                    Some(ContractError::BadOutcomeLabel)
                } else if exists|j: int| i < j < outs.len() && #[trigger] outs[j]@ == outs[i]@ {
                    Some(ContractError::DuplicateOutcomes)
                } else {
                    None
                }
            },
        }
    }
}

/// Why `create_market` would refuse, checked in this order, or `None`.
pub open spec fn create_market_error(
    s: NearCast,
    now: u64,
    question: Seq<char>,
    description: Seq<char>,
    outcomes: Seq<String>,
    bets_end_date: Seq<char>,
    resolution_date: Seq<char>,
) -> Option<ContractError> {
    let be = timestamp_of(bets_end_date);
    let rd = timestamp_of(resolution_date);
    if be is None {
        Some(ContractError::InvalidBetsEndDate)
    } else if rd is None {
        Some(ContractError::InvalidResolutionDate)
    } else if question.len() == 0 || utf8_len(question) > MAX_QUESTION_BYTES {
        Some(ContractError::BadQuestion)
    } else if utf8_len(description) > MAX_DESCRIPTION_BYTES {
        Some(ContractError::DescriptionTooLong)
    } else if outcomes.len() < MIN_OUTCOMES || outcomes.len() > MAX_OUTCOMES {
        Some(ContractError::BadOutcomeCount)
    } else if be->Some_0 <= now {
        Some(ContractError::BetsEndNotInFuture)
    } else if rd->Some_0 <= be->Some_0 {
        Some(ContractError::ResolutionBeforeBetsEnd)
    } else if outcome_problem(outcomes, outcomes.len()) is Some {
        outcome_problem(outcomes, outcomes.len())
    } else if s.market_list().len() >= u64::MAX {
        Some(ContractError::TooManyMarkets)
    } else {
        None
    }
}

/// Text of an optional field, empty when absent.
pub open spec fn text_or_empty(t: Option<String>) -> Seq<char> {
    match t {
        Some(s) => s@,
        None => Seq::empty(),
    }
}

fn take_or_empty(t: Option<String>) -> (r: String)
    ensures
        r@ == text_or_empty(t),
{
    match t {
        Some(s) => s,
        None => String::new(),
    }
}

proof fn lemma_outcome_problem_stable(outs: Seq<String>, m: nat, n: nat)
    requires
        m <= n,
        outcome_problem(outs, m) is Some,
    ensures
        outcome_problem(outs, n) == outcome_problem(outs, m),
    decreases n - m,
{
    if n > m {
        lemma_outcome_problem_stable(outs, m, (n - 1) as nat);
    }
}

/// Checks labels in order; see `outcome_problem`.
fn check_outcomes(outcomes: &Vec<String>) -> (r: Option<ContractError>)
    ensures
        r == outcome_problem(outcomes@, outcomes@.len()),
{
    let n = outcomes.len();
    let mut i: usize = 0;
    while i < n
        invariant
            n == outcomes@.len(),
            i <= n,
            outcome_problem(outcomes@, i as nat) is None,
        decreases n - i,
    {
        let o = outcomes[i].as_str();
        if o.is_empty() || exceeds_bytes(o, MAX_LABEL_BYTES) {
            proof {
                lemma_outcome_problem_stable(outcomes@, i as nat + 1, n as nat);
            }
            return Some(ContractError::BadOutcomeLabel);
        }
        let mut j: usize = i + 1;
        while j < n
            invariant
                n == outcomes@.len(),
                i < j <= n,
                outcome_problem(outcomes@, i as nat) is None,
                !bad_label(outcomes@[i as int]@),
                forall|k: int| i < k < j ==> #[trigger] outcomes@[k]@ != outcomes@[i as int]@,
            decreases n - j,
        {
            if outcomes[j] == outcomes[i] {
                proof {
                    assert(outcomes@[j as int]@ == outcomes@[i as int]@);
                    lemma_outcome_problem_stable(outcomes@, i as nat + 1, n as nat);
                }
                return Some(ContractError::DuplicateOutcomes);
            }
            j = j + 1;
        }
        i = i + 1;
    }
    None
}

impl NearCast {
    /// Opens a new market, with one empty pool per outcome, and returns its id.
    pub fn create_market(
        &mut self,
        sender: &String,
        now: u64,
        question: String,
        description: String,
        outcomes: Vec<String>,
        category: String,
        bets_end_date: String,
        resolution_date: String,
        espn_event_id: Option<String>,
        sport: Option<String>,
        league: Option<String>,
        market_type: Option<String>,
    ) -> (r: Result<u64, ContractError>)
        requires
            old(self).wf(),
        ensures
            final(self).wf(),
            r matches Err(e) ==> create_market_error(*old(self), now, question@, description@, outcomes@, bets_end_date@, resolution_date@) == Some(e),
            r is Ok <==> create_market_error(*old(self), now, question@, description@, outcomes@, bets_end_date@, resolution_date@) is None,
            r is Err ==> *final(self) == *old(self),
            r matches Ok(id) ==> {
                let m = final(self).market_list()[id as int];
                &&& id == old(self).market_list().len()
                &&& final(self).market_list().len() == id + 1
                &&& final(self).market_list().subrange(0, id as int) == old(self).market_list()
                &&& m.creator == *sender && m.question == question && m.description == description
                &&& m.outcomes@ == outcomes@ && m.category == category
                &&& m.outcome_pools@.len() == outcomes@.len()
                &&& forall|o: int| 0 <= o < outcomes@.len() ==> #[trigger] m.outcome_pools@[o] == 0
                &&& m.total_pool == 0 && m.total_bets == 0
                &&& m.created_at == now
                &&& Some(m.bets_end_date) == timestamp_of(bets_end_date@)
                &&& Some(m.resolution_date) == timestamp_of(resolution_date@)
                &&& m.status == MarketStatus::Active && m.resolved_outcome == UNRESOLVED
                &&& m.espn_event_id@ == text_or_empty(espn_event_id)
                &&& m.sport@ == text_or_empty(sport)
                &&& m.league@ == text_or_empty(league)
                &&& (m.market_type is HeadToHead) == (market_type is None || market_type->Some_0@ == "winner"@)
                &&& (m.market_type is ThresholdTotal) == (market_type is Some && market_type->Some_0@ == "over-under"@)
                &&& (m.market_type is BooleanProposition) == (market_type is Some && market_type->Some_0@ == "both-score"@)
                &&& final(self).bet_list() == old(self).bet_list()
                &&& forall|w: Seq<char>| #[trigger] final(self).balance(w) == old(self).balance(w)
                &&& final(self).volume() == old(self).volume()
            },
            final(self).owner_id() == old(self).owner_id(),
            final(self).oracle_config() == old(self).oracle_config(),
    {
        let bets_end = match parse_u64(bets_end_date.as_str()) {
            Some(t) => t,
            None => return Err(ContractError::InvalidBetsEndDate),
        };
        let resolution = match parse_u64(resolution_date.as_str()) {
            Some(t) => t,
            None => return Err(ContractError::InvalidResolutionDate),
        };
        if question.as_str().is_empty() || exceeds_bytes(question.as_str(), MAX_QUESTION_BYTES) {
            return Err(ContractError::BadQuestion);
        }
        if exceeds_bytes(description.as_str(), MAX_DESCRIPTION_BYTES) {
            return Err(ContractError::DescriptionTooLong);
        }
        if outcomes.len() < MIN_OUTCOMES || outcomes.len() > MAX_OUTCOMES {
            return Err(ContractError::BadOutcomeCount);
        }
        if bets_end <= now {
            return Err(ContractError::BetsEndNotInFuture);
        }
        if resolution <= bets_end {
            return Err(ContractError::ResolutionBeforeBetsEnd);
        }
        match check_outcomes(&outcomes) {
            Some(e) => return Err(e),
            None => {},
        }
        let id = self.markets.len() as u64;
        if id == u64::MAX {
            return Err(ContractError::TooManyMarkets);
        }
        let n = outcomes.len();
        let mut pools: Vec<u128> = Vec::new();
        while pools.len() < n
            invariant
                pools@.len() <= n,
                forall|o: int| 0 <= o < pools@.len() ==> #[trigger] pools@[o] == 0,
            decreases n - pools@.len(),
        {
            pools.push(0);
        }
        proof {
            lemma_amount_sum_zeros(pools@);
            lemma_stake_sum_none(self.bets@, on_market(id as int));
            assert forall|o: int| 0 <= o < n implies stake_sum(self.bets@, #[trigger] on_outcome(id as int, o)) == 0 by {
                lemma_stake_sum_none(self.bets@, on_outcome(id as int, o));
            }
        }
        let kind = match market_type {
            Some(t) => MarketKind::from_tag(t.as_str()),
            None => MarketKind::HeadToHead,
        };
        let market = Market {
            id,
            creator: sender.clone(),
            question,
            description,
            outcomes,
            outcome_pools: pools,
            total_pool: 0,
            category,
            created_at: now,
            bets_end_date: bets_end,
            resolution_date: resolution,
            resolved_outcome: UNRESOLVED,
            status: MarketStatus::Active,
            total_bets: 0,
            espn_event_id: take_or_empty(espn_event_id),
            sport: take_or_empty(sport),
            league: take_or_empty(league),
            market_type: kind,
        };
        let ghost old_markets = self.markets@;
        self.markets.push(market);
        proof {
            assert(self.markets@.subrange(0, id as int) == old_markets);
            assert forall|j: int| 0 <= j < self.markets@.len() implies market_ok(
                #[trigger] self.markets@[j],
                j,
                self.bets@,
            ) by {
                if j < id {
                    assert(market_ok(old_markets[j], j, self.bets@));
                }
            }
            assert forall|k: int| 0 <= k < self.bets@.len() implies bet_ok(
                #[trigger] self.bets@[k],
                self.markets@,
            ) by {
                assert(bet_ok(self.bets@[k], old_markets));
            }
        }
        Ok(id)
    }
}


/// `b` is a copy of `a`, shown with status `status`.
pub open spec fn shown_copy(b: Market, a: Market, status: MarketStatus) -> bool {
    &&& b.id == a.id
    &&& b.creator == a.creator
    &&& b.question == a.question
    &&& b.description == a.description
    &&& b.outcomes@ == a.outcomes@
    &&& b.outcome_pools@ == a.outcome_pools@
    &&& b.total_pool == a.total_pool
    &&& b.category == a.category
    &&& b.created_at == a.created_at
    &&& b.bets_end_date == a.bets_end_date
    &&& b.resolution_date == a.resolution_date
    &&& b.resolved_outcome == a.resolved_outcome
    &&& b.status == status
    &&& b.total_bets == a.total_bets
    &&& b.espn_event_id == a.espn_event_id
    &&& b.sport == a.sport
    &&& b.league == a.league
    &&& b.market_type == a.market_type
}

/// Status shown at time `now`: an active market past its betting deadline is closed.
pub open spec fn shown_status(m: Market, now: u64) -> MarketStatus {
    if m.status == MarketStatus::Active && now >= m.bets_end_date {
        MarketStatus::Closed
    } else {
        m.status
    }
}

pub open spec fn status_tag(s: MarketStatus) -> Seq<char> {
    match s {
        MarketStatus::Active => "active"@,
        MarketStatus::Closed => "closed"@,
        MarketStatus::Resolved => "resolved"@,
        MarketStatus::Voided => "voided"@,
    }
}

/// The filter value that lets every market through.
pub const ANY: &'static str = "все";

/// Market `m` passes the optional category and status filters at time `now`.
pub open spec fn listed(m: Market, now: u64, category: Option<String>, status: Option<String>) -> bool {
    &&& category matches Some(c) ==> c@ == ANY@ || m.category@ == c@
    &&& status matches Some(t) ==> t@ == ANY@ || status_tag(shown_status(m, now)) == t@
}

/// Ids below `n` of the markets that pass the filters, highest first.
pub open spec fn listed_ids(
    ms: Seq<Market>,
    n: nat,
    now: u64,
    category: Option<String>,
    status: Option<String>,
) -> Seq<int>
    decreases n,
{
    if n == 0 {
        Seq::empty()
    } else {
        let rest = listed_ids(ms, (n - 1) as nat, now, category, status);
        if listed(ms[n - 1], now, category, status) {
            seq![n - 1].add(rest)
        } else {
            rest
        }
    }
}

/// The bets of `bets` that satisfy `p`, in order.
pub open spec fn bets_where(bets: Seq<Bet>, p: spec_fn(Bet) -> bool) -> Seq<Bet>
    decreases bets.len(),
{
    if bets.len() == 0 {
        Seq::empty()
    } else if p(bets.last()) {
        bets_where(bets.drop_last(), p).push(bets.last())
    } else {
        bets_where(bets.drop_last(), p)
    }
}

pub open spec fn by_user(who: Seq<char>) -> spec_fn(Bet) -> bool {
    |b: Bet| b.user@ == who
}

/// Totals and accounts of the store.
#[derive(Clone, Debug)]
pub struct Stats {
    pub total_markets: u64,
    pub total_volume: u128,
    pub owner: String,
    pub oracle: String,
    pub outlayer_source_repo: String,
    pub outlayer_contract: String,
    pub tls_oracle_contract: String,
}

impl MarketStatus {
    /// Lower-case name of the status.
    pub fn tag(&self) -> (r: &'static str)
        ensures
            r@ == status_tag(*self),
    {
        match self {
            MarketStatus::Active => "active",
            MarketStatus::Closed => "closed",
            MarketStatus::Resolved => "resolved",
            MarketStatus::Voided => "voided",
        }
    }
}

fn copy_labels(v: &Vec<String>) -> (r: Vec<String>)
    ensures
        r@ == v@,
{
    let mut r: Vec<String> = Vec::new();
    let mut k: usize = 0;
    while k < v.len()
        invariant
            k <= v@.len(),
            r@ == v@.subrange(0, k as int),
        decreases v@.len() - k,
    {
        r.push(v[k].clone());
        k = k + 1;
    }
    assert(v@.subrange(0, v@.len() as int) == v@);
    r
}

fn copy_amounts(v: &Vec<u128>) -> (r: Vec<u128>)
    ensures
        r@ == v@,
{
    let mut r: Vec<u128> = Vec::new();
    let mut k: usize = 0;
    while k < v.len()
        invariant
            k <= v@.len(),
            r@ == v@.subrange(0, k as int),
        decreases v@.len() - k,
    {
        r.push(v[k]);
        k = k + 1;
    }
    assert(v@.subrange(0, v@.len() as int) == v@);
    r
}

impl Market {
    /// A copy of the market as seen at time `now`.
    pub fn shown_at(&self, now: u64) -> (r: Market)
        ensures
            shown_copy(r, *self, shown_status(*self, now)),
    {
        let status = if self.status == MarketStatus::Active && now >= self.bets_end_date {
            MarketStatus::Closed
        } else {
            self.status
        };
        Market {
            id: self.id,
            creator: self.creator.clone(),
            question: self.question.clone(),
            description: self.description.clone(),
            outcomes: copy_labels(&self.outcomes),
            outcome_pools: copy_amounts(&self.outcome_pools),
            total_pool: self.total_pool,
            category: self.category.clone(),
            created_at: self.created_at,
            bets_end_date: self.bets_end_date,
            resolution_date: self.resolution_date,
            resolved_outcome: self.resolved_outcome,
            status,
            total_bets: self.total_bets,
            espn_event_id: self.espn_event_id.clone(),
            sport: self.sport.clone(),
            league: self.league.clone(),
            market_type: self.market_type.copy(),
        }
    }

    /// Whether the market passes the optional filters at time `now`.
    pub fn is_listed(&self, now: u64, category: &Option<String>, status: &Option<String>) -> (r: bool)
        ensures
            r == listed(*self, now, *category, *status),
    {
        match category {
            Some(c) => {
                if !str_eq(c.as_str(), ANY) && !str_eq(self.category.as_str(), c.as_str()) {
                    return false;
                }
            },
            None => {},
        }
        match status {
            Some(t) => {
                let shown = if self.status == MarketStatus::Active && now >= self.bets_end_date {
                    MarketStatus::Closed
                } else {
                    self.status
                };
                if !str_eq(t.as_str(), ANY) && !str_eq(shown.tag(), t.as_str()) {
                    return false;
                }
            },
            None => {},
        }
        true
    }
}

impl Bet {
    pub fn copy(&self) -> (r: Bet)
        ensures
            r == *self,
    {
        Bet {
            market_id: self.market_id,
            user: self.user.clone(),
            outcome: self.outcome,
            amount: self.amount,
            timestamp: self.timestamp,
            claimed: self.claimed,
        }
    }
}

impl NearCast {
    /// Market `market_id` as seen at time `now`.
    pub fn get_market(&self, market_id: u64, now: u64) -> (r: Option<Market>)
        ensures
            market_id >= self.market_list().len() ==> r is None,
            market_id < self.market_list().len() ==> r is Some && shown_copy(
                r->Some_0,
                self.market_list()[market_id as int],
                shown_status(self.market_list()[market_id as int], now),
            ),
    {
        match self.market(market_id) {
            Some(m) => Some(m.shown_at(now)),
            None => None,
        }
    }

    /// Markets that pass the filters, newest first, as seen at time `now`:
    /// the first `from_index` of them skipped, at most `limit` (default 50) given.
    pub fn get_markets(
        &self,
        from_index: Option<u64>,
        limit: Option<u64>,
        category: Option<String>,
        status: Option<String>,
        now: u64,
    ) -> (r: Vec<Market>)
        ensures
            ({
                let ids = listed_ids(self.market_list(), self.market_list().len(), now, category, status);
                let skip = match from_index { Some(f) => f as int, None => 0 };
                let max = match limit { Some(l) => l as int, None => 50 };
                let end = if skip + max < ids.len() { skip + max } else { ids.len() as int };
                &&& r@.len() == if skip < end { end - skip } else { 0 }
                &&& forall|k: int| 0 <= k < r@.len() ==> shown_copy(
                    #[trigger] r@[k],
                    self.market_list()[ids[skip + k]],
                    shown_status(self.market_list()[ids[skip + k]], now),
                )
            }),
    {
        let skip: u64 = match from_index { Some(f) => f, None => 0 };
        let max: u64 = match limit { Some(l) => l, None => 50 };
        let ghost ms = self.markets@;
        let ghost all = listed_ids(ms, ms.len(), now, category, status);
        let mut results: Vec<Market> = Vec::new();
        let mut skipped: u64 = 0;
        let mut id: usize = self.markets.len();
        let ghost mut seen: Seq<int> = Seq::empty();
        proof {
            lemma_listed_ids_bounds(ms, ms.len(), now, category, status);
        }
        while id > 0 && (results.len() as u64) < max
            invariant
                ms == self.markets@,
                all == listed_ids(ms, ms.len(), now, category, status),
                id <= ms.len(),
                seen + listed_ids(ms, id as nat, now, category, status) == all,
                skipped as int == if seen.len() < skip { seen.len() as int } else { skip as int },
                results@.len() == if seen.len() > skip { seen.len() - skip } else { 0 },
                results@.len() <= max,
                forall|k: int| 0 <= k < results@.len() ==> shown_copy(
                    #[trigger] results@[k],
                    ms[seen[skip + k]],
                    shown_status(ms[seen[skip + k]], now),
                ),
                forall|k: int| 0 <= k < all.len() ==> 0 <= #[trigger] all[k] < ms.len(),
            decreases id,
        {
            id = id - 1;
            let m = &self.markets[id];
            proof {
                assert(listed_ids(ms, id as nat + 1, now, category, status) == if listed(ms[id as int], now, category, status) {
                    seq![id as int].add(listed_ids(ms, id as nat, now, category, status))
                } else {
                    listed_ids(ms, id as nat, now, category, status)
                });
            }
            if m.is_listed(now, &category, &status) {
                proof {
                    assert(seen.push(id as int) + listed_ids(ms, id as nat, now, category, status) =~= seen + seq![id as int].add(listed_ids(ms, id as nat, now, category, status)));
                    seen = seen.push(id as int);
                }
                if skipped < skip {
                    skipped = skipped + 1;
                } else {
                    results.push(m.shown_at(now));
                }
            }
        }
        proof {
            let end = if skip + max < all.len() { skip + max } else { all.len() as int };
            if id == 0 {
                assert(listed_ids(ms, 0, now, category, status) == Seq::<int>::empty());
                assert(seen =~= all);
            }
            assert forall|k: int| 0 <= k < results@.len() implies #[trigger] seen[skip + k] == all[skip + k] by {
                assert((seen + listed_ids(ms, id as nat, now, category, status))[skip + k] == seen[skip + k]);
            }
        }
        results
    }

    /// The bets on market `market_id`, in the order placed.
    pub fn get_market_bets(&self, market_id: u64) -> (r: Vec<Bet>)
        ensures
            r@ == bets_where(self.bet_list(), on_market(market_id as int)),
    {
        let mut r: Vec<Bet> = Vec::new();
        let mut k: usize = 0;
        while k < self.bets.len()
            invariant
                k <= self.bets@.len(),
                r@ == bets_where(self.bets@.subrange(0, k as int), on_market(market_id as int)),
            decreases self.bets@.len() - k,
        {
            assert(self.bets@.subrange(0, k + 1).drop_last() == self.bets@.subrange(0, k as int));
            if self.bets[k].market_id == market_id {
                r.push(self.bets[k].copy());
            }
            k = k + 1;
        }
        assert(self.bets@.subrange(0, self.bets@.len() as int) == self.bets@);
        r
    }

    /// The bets of `account_id`, in the order placed.
    pub fn get_user_bets(&self, account_id: &String) -> (r: Vec<Bet>)
        ensures
            r@ == bets_where(self.bet_list(), by_user(account_id@)),
    {
        let mut r: Vec<Bet> = Vec::new();
        let mut k: usize = 0;
        while k < self.bets.len()
            invariant
                k <= self.bets@.len(),
                r@ == bets_where(self.bets@.subrange(0, k as int), by_user(account_id@)),
            decreases self.bets@.len() - k,
        {
            assert(self.bets@.subrange(0, k + 1).drop_last() == self.bets@.subrange(0, k as int));
            if self.bets[k].user == *account_id {
                r.push(self.bets[k].copy());
            }
            k = k + 1;
        }
        assert(self.bets@.subrange(0, self.bets@.len() as int) == self.bets@);
        r
    }

    /// Totals and accounts of the store.
    pub fn get_stats(&self) -> (r: Stats)
        ensures
            r.total_markets == self.market_list().len(),
            r.total_volume == self.volume(),
            r.owner@ == self.owner_id(),
            r.oracle@ == self.oracle_id(),
            r.outlayer_source_repo == self.oracle_config().source_repo,
            r.outlayer_contract == self.oracle_config().outlayer_contract,
            r.tls_oracle_contract == self.oracle_config().tls_oracle_contract,
    {
        Stats {
            total_markets: self.market_count(),
            total_volume: self.total_volume,
            owner: self.owner.clone(),
            oracle: self.oracle.clone(),
            outlayer_source_repo: self.config.source_repo.clone(),
            outlayer_contract: self.config.outlayer_contract.clone(),
            tls_oracle_contract: self.config.tls_oracle_contract.clone(),
        }
    }

    /// Sets the worker source of the delegated-compute path; owner only.
    /// Absent values keep their current setting.
    pub fn set_outlayer_config(
        &mut self,
        caller: &String,
        source_repo: String,
        source_commit: Option<String>,
        outlayer_contract: Option<String>,
    ) -> (r: Result<(), ContractError>)
        requires
            old(self).wf(),
        ensures
            final(self).wf(),
            caller@ != old(self).owner_id() ==> r == Err::<(), ContractError>(ContractError::NotOwner)
                && *final(self) == *old(self),
            caller@ == old(self).owner_id() ==> r is Ok && {
                let c0 = old(self).oracle_config();
                let c1 = final(self).oracle_config();
                &&& c1.source_repo == source_repo
                &&& c1.source_commit == match source_commit { Some(c) => c, None => c0.source_commit }
                &&& c1.outlayer_contract == match outlayer_contract { Some(c) => c, None => c0.outlayer_contract }
                &&& c1.tls_oracle_contract == c0.tls_oracle_contract
            },
            final(self).market_list() == old(self).market_list(),
            final(self).bet_list() == old(self).bet_list(),
            forall|w: Seq<char>| #[trigger] final(self).balance(w) == old(self).balance(w),
            final(self).owner_id() == old(self).owner_id(),
    {
        if *caller != self.owner {
            return Err(ContractError::NotOwner);
        }
        self.config.source_repo = source_repo;
        match source_commit {
            Some(c) => self.config.source_commit = c,
            None => {},
        }
        match outlayer_contract {
            Some(c) => self.config.outlayer_contract = c,
            None => {},
        }
        Ok(())
    }

    /// Sets the attestation registry of the attestation path; owner only.
    pub fn set_tls_oracle_config(&mut self, caller: &String, tls_oracle_contract: String) -> (r: Result<
        (),
        ContractError,
    >)
        requires
            old(self).wf(),
        ensures
            final(self).wf(),
            caller@ != old(self).owner_id() ==> r == Err::<(), ContractError>(ContractError::NotOwner)
                && *final(self) == *old(self),
            caller@ == old(self).owner_id() ==> r is Ok && final(self).oracle_config()
                == (OracleConfig { tls_oracle_contract, ..old(self).oracle_config() }),
            final(self).market_list() == old(self).market_list(),
            final(self).bet_list() == old(self).bet_list(),
            forall|w: Seq<char>| #[trigger] final(self).balance(w) == old(self).balance(w),
            final(self).owner_id() == old(self).owner_id(),
    {
        if *caller != self.owner {
            return Err(ContractError::NotOwner);
        }
        self.config.tls_oracle_contract = tls_oracle_contract;
        Ok(())
    }
}

proof fn lemma_listed_ids_bounds(
    ms: Seq<Market>,
    n: nat,
    now: u64,
    category: Option<String>,
    status: Option<String>,
)
    requires
        n <= ms.len(),
    ensures
        forall|k: int|
            0 <= k < listed_ids(ms, n, now, category, status).len() ==> 0 <= #[trigger] listed_ids(
                ms,
                n,
                now,
                category,
                status,
            )[k] < n,
    decreases n,
{
    if n > 0 {
        let rest = listed_ids(ms, (n - 1) as nat, now, category, status);
        lemma_listed_ids_bounds(ms, (n - 1) as nat, now, category, status);
        if listed(ms[n - 1], now, category, status) {
            let all = seq![n - 1].add(rest);
            assert forall|k: int| 0 <= k < all.len() implies 0 <= #[trigger] all[k] < n by {
                if k > 0 {
                    assert(all[k] == rest[k - 1]);
                }
            }
        }
    }
}


/// The contents of a store, field by field, for saving and restoring it.
pub struct StoreParts {
    pub owner: String,
    pub oracle: String,
    pub markets: Vec<Market>,
    pub bets: Vec<Bet>,
    pub balances: Vec<(String, u128)>,
    pub total_volume: u128,
    pub config: OracleConfig,
}

/// The parts describe a consistent store.
pub open spec fn parts_ok(markets: Seq<Market>, bets: Seq<Bet>) -> bool {
    &&& forall|i: int| 0 <= i < markets.len() ==> market_ok(#[trigger] markets[i], i, bets)
    &&& forall|k: int| 0 <= k < bets.len() ==> bet_ok(#[trigger] bets[k], markets)
}

fn check_market(m: &Market, i: usize, bets: &Vec<Bet>) -> (r: bool)
    ensures
        r == market_ok(*m, i as int, bets@),
{
    if m.id != i as u64 || m.outcome_pools.len() != m.outcomes.len() {
        return false;
    }
    match m.status {
        MarketStatus::Closed => return false,
        MarketStatus::Active => if m.resolved_outcome != UNRESOLVED {
            return false;
        },
        MarketStatus::Voided => if m.resolved_outcome != VOIDED {
            return false;
        },
        MarketStatus::Resolved => if m.resolved_outcome < 0 || m.resolved_outcome as usize
            >= m.outcomes.len() {
            return false;
        },
    }
    match checked_amount_sum(&m.outcome_pools) {
        Some(t) => if t != m.total_pool {
            return false;
        },
        None => return false,
    }
    match checked_stake_sum(bets, i as u64, None) {
        Some(t) => if t != m.total_pool {
            return false;
        },
        None => return false,
    }
    let n = m.outcome_pools.len();
    let mut o: usize = 0;
    while o < n
        invariant
            n == m.outcome_pools@.len(),
            n == m.outcomes@.len(),
            o <= n,
            forall|q: int| 0 <= q < o ==> #[trigger] m.outcome_pools@[q] == stake_sum(bets@, on_outcome(i as int, q)),
        decreases n - o,
    {
        let expected = if o > u32::MAX as usize {
            proof {
                lemma_stake_sum_none(bets@, on_outcome(i as int, o as int));
            }
            Some(0u128)
        } else {
            checked_stake_sum(bets, i as u64, Some(o as u32))
        };
        match expected {
            Some(t) => if t != m.outcome_pools[o] {
                assert(m.outcome_pools@[o as int] != stake_sum(bets@, on_outcome(i as int, o as int)));
                return false;
            },
            None => {
                assert(m.outcome_pools@[o as int] != stake_sum(bets@, on_outcome(i as int, o as int)));
                return false;
            },
        }
        o = o + 1;
    }
    true
}

impl NearCast {
    /// The contents of the store, to be saved.
    pub fn into_parts(self) -> (r: StoreParts)
        ensures
            r.owner@ == self.owner_id(),
            r.oracle@ == self.oracle_id(),
            r.markets@ == self.market_list(),
            r.bets@ == self.bet_list(),
            forall|w: Seq<char>| #[trigger] balance_in(r.balances@, w) == self.balance(w),
            r.total_volume == self.volume(),
            r.config == self.oracle_config(),
    {
        StoreParts {
            owner: self.owner,
            oracle: self.oracle,
            markets: self.markets,
            bets: self.bets,
            balances: self.balances,
            total_volume: self.total_volume,
            config: self.config,
        }
    }

    /// A store restored from saved parts, if they are consistent.
    pub fn from_parts(p: StoreParts) -> (r: Option<NearCast>)
        ensures
            r is Some <==> parts_ok(p.markets@, p.bets@),
            r matches Some(s) ==> {
                &&& s.wf()
                &&& s.owner_id() == p.owner@
                &&& s.oracle_id() == p.oracle@
                &&& s.market_list() == p.markets@
                &&& s.bet_list() == p.bets@
                &&& forall|w: Seq<char>| #[trigger] s.balance(w) == balance_in(p.balances@, w)
                &&& s.volume() == p.total_volume
                &&& s.oracle_config() == p.config
            },
    {
        let nm = p.markets.len();
        let mut i: usize = 0;
        while i < nm
            invariant
                nm == p.markets@.len(),
                i <= nm,
                forall|j: int| 0 <= j < i ==> market_ok(#[trigger] p.markets@[j], j, p.bets@),
            decreases nm - i,
        {
            if !check_market(&p.markets[i], i, &p.bets) {
                return None;
            }
            i = i + 1;
        }
        let nb = p.bets.len();
        let mut k: usize = 0;
        while k < nb
            invariant
                nb == p.bets@.len(),
                nm == p.markets@.len(),
                k <= nb,
                forall|j: int| 0 <= j < k ==> bet_ok(#[trigger] p.bets@[j], p.markets@),
            decreases nb - k,
        {
            let b = &p.bets[k];
            if b.market_id >= nm as u64 {
                return None;
            }
            let m = &p.markets[b.market_id as usize];
            if b.outcome as usize >= m.outcomes.len() {
                return None;
            }
            if b.claimed && !(m.status == MarketStatus::Resolved || m.status == MarketStatus::Voided) {
                return None;
            }
            k = k + 1;
        }
        Some(NearCast {
            owner: p.owner,
            oracle: p.oracle,
            markets: p.markets,
            bets: p.bets,
            balances: p.balances,
            total_volume: p.total_volume,
            config: p.config,
        })
    }
}

} // verus!
