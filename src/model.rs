//! Data of the settlement engine: markets, bets, raw event records and verdicts.
use vstd::prelude::*;

verus! {

/// Lifecycle of a market. `Closed` is never stored: it is how an `Active`
/// market whose betting deadline has passed is shown.
#[derive(Clone, Copy, Debug, PartialEq, Eq, Structural)]
pub enum MarketStatus {
    Active,
    Closed,
    Resolved,
    Voided,
}

/// Family of a market, which selects the rule that settles it.
#[derive(Clone, Debug)]
pub enum MarketKind {
    /// Outcomes name the teams (and possibly a draw); the higher score wins.
    HeadToHead,
    /// Outcomes are "over"/"under" a total-score threshold.
    ThresholdTotal,
    /// Outcomes are yes/no on "both teams score".
    BooleanProposition,
    /// A tag that names no known family; such a market is never settled on a winner.
    Unknown(String),
}

/// Completion status reported for an event by the data source.
#[derive(Clone, Debug)]
pub enum EventStatus {
    Final,
    Pre,
    InProgress,
    Error,
    Other(String),
}

/// One event record as delivered by the data source.
#[derive(Clone, Debug)]
pub struct RawEventRecord {
    pub home_team: String,
    pub away_team: String,
    /// Negative when the source could not read the score.
    pub home_score: i32,
    pub away_score: i32,
    pub status: EventStatus,
    /// Empty unless the source reported an error.
    pub error: String,
}

/// Why a verdict came out as it did.
#[derive(Clone, Debug)]
pub enum Reason {
    /// `"{label} wins {first}:{second}"`.
    Wins { label: String, first: i32, second: i32 },
    /// Equal scores, settled on the draw outcome.
    Draw { home: i32, away: i32 },
    /// Equal scores in a three-way market without a draw outcome.
    DrawWithoutSlot { home: i32, away: i32 },
    /// Equal scores in a two-way market.
    TieInTwoWay { home: i32, away: i32 },
    /// A head-to-head market whose outcome count is neither two nor three.
    BadOutcomeCount,
    /// Total score against a threshold; `threshold` is the token it was read
    /// from, or `None` for the default 2.5.
    Total { total: i64, over: bool, threshold: Option<String>, home: i32, away: i32 },
    BothScored { home: i32, away: i32 },
    NotBothScored { home: i32, away: i32 },
    /// The event has not finished.
    NotCompleted { status: EventStatus },
    /// The data source reported an error.
    SourceError { message: String },
    /// A score could not be read.
    ScoresUnreadable,
    /// The market's family tag is unknown.
    UnknownMarketType { tag: String },
}

/// Outcome index (or `-1`, indeterminate), confidence in percent, and reason.
#[derive(Clone, Debug)]
pub struct Verdict {
    pub outcome: i32,
    pub confidence: u8,
    pub reason: Reason,
}

/// Sentinel of `resolved_outcome` while a market is unsettled.
pub const UNRESOLVED: i32 = -1;

/// Sentinel of `resolved_outcome` for a voided market.
pub const VOIDED: i32 = -2;

/// A prediction market and its pooled stakes.
#[derive(Clone, Debug)]
pub struct Market {
    pub id: u64,
    pub creator: String,
    pub question: String,
    pub description: String,
    pub outcomes: Vec<String>,
    pub outcome_pools: Vec<u128>,
    pub total_pool: u128,
    pub category: String,
    /// Timestamps in nanoseconds.
    pub created_at: u64,
    pub bets_end_date: u64,
    pub resolution_date: u64,
    /// Winning outcome index, or `UNRESOLVED` / `VOIDED`.
    pub resolved_outcome: i32,
    pub status: MarketStatus,
    pub total_bets: u32,
    /// Correlation key of the external event; empty when the market cannot
    /// be settled by an oracle.
    pub espn_event_id: String,
    pub sport: String,
    pub league: String,
    pub market_type: MarketKind,
}

/// One stake on one outcome.
#[derive(Clone, Debug)]
pub struct Bet {
    pub market_id: u64,
    pub user: String,
    pub outcome: u32,
    pub amount: u128,
    pub timestamp: u64,
    pub claimed: bool,
}

} // verus!
