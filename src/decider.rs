//! Resolution decider: from a market and a raw event record to a verdict.
use crate::matcher::{
    both_score_reason, head_to_head_index, head_to_head_reason, resolve_both_score,
    resolve_over_under, resolve_winner, threshold_index, threshold_reason,
};
use crate::model::{EventStatus, Market, MarketKind, RawEventRecord, Reason, Verdict};
use crate::text::str_eq;
use vstd::prelude::*;

verus! {

/// Confidence, in percent, of a verdict that names an outcome.
pub const FULL_CONFIDENCE: u8 = 100;

impl EventStatus {
    /// Reads a status tag: `final`, `pre`, `in`, `error`; anything else is kept as is.
    pub fn from_tag(tag: &str) -> (r: EventStatus)
        ensures
            (r is Final) == (tag@ == "final"@),
            (r is Pre) == (tag@ == "pre"@),
            (r is InProgress) == (tag@ == "in"@),
            (r is Error) == (tag@ == "error"@),
            r matches EventStatus::Other(t) ==> t@ == tag@,
    {
        proof {
            reveal_strlit("final");
            reveal_strlit("pre");
            reveal_strlit("in");
            reveal_strlit("error");
            assert("final"@[0] != "error"@[0]);
            assert("final"@.len() != "pre"@.len() && "final"@.len() != "in"@.len());
            assert("pre"@.len() != "in"@.len() && "pre"@.len() != "error"@.len());
            assert("in"@.len() != "error"@.len());
        }
        if str_eq(tag, "final") {
            EventStatus::Final
        } else if str_eq(tag, "pre") {
            EventStatus::Pre
        } else if str_eq(tag, "in") {
            EventStatus::InProgress
        } else if str_eq(tag, "error") {
            EventStatus::Error
        } else {
            EventStatus::Other(tag.to_owned())
        }
    }

    pub fn copy(&self) -> (r: EventStatus)
        ensures
            r == *self,
    {
        match self {
            EventStatus::Final => EventStatus::Final,
            EventStatus::Pre => EventStatus::Pre,
            EventStatus::InProgress => EventStatus::InProgress,
            EventStatus::Error => EventStatus::Error,
            EventStatus::Other(t) => EventStatus::Other(t.clone()),
        }
    }
}

impl MarketKind {
    /// Reads a family tag: `winner`, `over-under`, `both-score`; anything else is unknown.
    pub fn from_tag(tag: &str) -> (r: MarketKind)
        ensures
            (r is HeadToHead) == (tag@ == "winner"@),
            (r is ThresholdTotal) == (tag@ == "over-under"@),
            (r is BooleanProposition) == (tag@ == "both-score"@),
            r matches MarketKind::Unknown(t) ==> t@ == tag@,
    {
        proof {
            reveal_strlit("winner");
            reveal_strlit("over-under");
            reveal_strlit("both-score");
            assert("over-under"@[0] != "both-score"@[0]);
            assert("winner"@.len() != "over-under"@.len());
            assert("winner"@.len() != "both-score"@.len());
        }
        if str_eq(tag, "winner") {
            MarketKind::HeadToHead
        } else if str_eq(tag, "over-under") {
            MarketKind::ThresholdTotal
        } else if str_eq(tag, "both-score") {
            MarketKind::BooleanProposition
        } else {
            MarketKind::Unknown(tag.to_owned())
        }
    }

    pub fn copy(&self) -> (r: MarketKind)
        ensures
            r == *self,
    {
        match self {
            MarketKind::HeadToHead => MarketKind::HeadToHead,
            MarketKind::ThresholdTotal => MarketKind::ThresholdTotal,
            MarketKind::BooleanProposition => MarketKind::BooleanProposition,
            MarketKind::Unknown(t) => MarketKind::Unknown(t.clone()),
        }
    }
}

/// The record can be settled on: final, no error, both scores read.
pub open spec fn settleable(e: RawEventRecord) -> bool {
    e.status is Final && e.error@.len() == 0 && e.home_score >= 0 && e.away_score >= 0
}

/// Outcome index the decider gives for `m` and `e`, or `-1`.
pub open spec fn verdict_index(m: Market, e: RawEventRecord) -> int {
    if !settleable(e) {
        -1
    } else {
        match m.market_type {
            MarketKind::HeadToHead => head_to_head_index(
                m.outcomes@,
                e.home_score as int,
                e.away_score as int,
                e.home_team@,
                e.away_team@,
            ),
            MarketKind::ThresholdTotal => threshold_index(
                m.outcomes@,
                e.home_score as int,
                e.away_score as int,
            ),
            MarketKind::BooleanProposition => if e.home_score > 0 && e.away_score > 0 {
                0
            } else {
                1
            },
            MarketKind::Unknown(_) => -1,
        }
    }
}

/// Decides a market from a raw event record. Indeterminate (index `-1`,
/// confidence 0) unless the event is final, error-free and both scores were
/// read; otherwise the rule of the market's family decides, with full
/// confidence when it names an outcome.
pub fn determine_winner(market: &Market, espn: &RawEventRecord) -> (r: Verdict)
    ensures
        r.outcome == verdict_index(*market, *espn),
        r.confidence == (if r.outcome >= 0 { FULL_CONFIDENCE } else { 0 }),
        !(espn.status is Final) ==> r.reason == (Reason::NotCompleted { status: espn.status }),
        espn.status is Final && espn.error@.len() > 0 ==> r.reason == (Reason::SourceError {
            message: espn.error,
        }),
        espn.status is Final && espn.error@.len() == 0 && (espn.home_score < 0 || espn.away_score
            < 0) ==> r.reason == Reason::ScoresUnreadable,
        settleable(*espn) ==> match market.market_type {
            MarketKind::HeadToHead => head_to_head_reason(
                market.outcomes@,
                espn.home_score,
                espn.away_score,
                r.outcome as int,
                r.reason,
            ),
            MarketKind::ThresholdTotal => threshold_reason(
                espn.home_score,
                espn.away_score,
                r.outcome as int,
                r.reason,
            ),
            MarketKind::BooleanProposition => both_score_reason(
                espn.home_score,
                espn.away_score,
                r.outcome as int,
                r.reason,
            ),
            MarketKind::Unknown(tag) => r.reason == (Reason::UnknownMarketType { tag }),
        },
{
    match espn.status {
        EventStatus::Final => {},
        _ => {
            return Verdict {
                outcome: -1,
                confidence: 0,
                reason: Reason::NotCompleted { status: espn.status.copy() },
            };
        },
    }
    if !espn.error.as_str().is_empty() {
        return Verdict {
            outcome: -1,
            confidence: 0,
            reason: Reason::SourceError { message: espn.error.clone() },
        };
    }
    if espn.home_score < 0 || espn.away_score < 0 {
        return Verdict { outcome: -1, confidence: 0, reason: Reason::ScoresUnreadable };
    }
    let (outcome, reason) = match &market.market_type {
        MarketKind::HeadToHead => resolve_winner(
            market.outcomes.as_slice(),
            espn.home_score,
            espn.away_score,
            espn.home_team.as_str(),
            espn.away_team.as_str(),
        ),
        MarketKind::ThresholdTotal => resolve_over_under(
            market.outcomes.as_slice(),
            espn.home_score,
            espn.away_score,
        ),
        MarketKind::BooleanProposition => resolve_both_score(espn.home_score, espn.away_score),
        MarketKind::Unknown(tag) => (-1, Reason::UnknownMarketType { tag: tag.clone() }),
    };
    let confidence = if outcome >= 0 { FULL_CONFIDENCE } else { 0 };
    Verdict { outcome, confidence, reason }
}

impl RawEventRecord {
    /// A record that reports a failure of the data source.
    pub fn error(msg: &str) -> (r: RawEventRecord)
        ensures
            r.status is Error,
            r.error@ == msg@,
            r.home_score == -1 && r.away_score == -1,
            r.home_team@.len() == 0 && r.away_team@.len() == 0,
    {
        RawEventRecord {
            home_team: String::new(),
            away_team: String::new(),
            home_score: -1,
            away_score: -1,
            status: EventStatus::Error,
            error: msg.to_owned(),
        }
    }

    /// A record for an event that has not finished, in the given state
    /// (`pre`, `in`, or another tag kept as is).
    pub fn not_finished(state: &str) -> (r: RawEventRecord)
        ensures
            (r.status is Pre) == (state@ == "pre"@),
            (r.status is InProgress) == (state@ == "in"@),
            !(r.status is Pre) && !(r.status is InProgress) ==> r.status == EventStatus::Other(
                r.status->Other_0,
            ) && r.status->Other_0@ == state@,
            r.error@.len() == 0,
            r.home_score == -1 && r.away_score == -1,
            r.home_team@.len() == 0 && r.away_team@.len() == 0,
    {
        proof {
            reveal_strlit("pre");
            reveal_strlit("in");
            assert("pre"@.len() != "in"@.len());
        }
        let status = if str_eq(state, "pre") {
            EventStatus::Pre
        } else if str_eq(state, "in") {
            EventStatus::InProgress
        } else {
            EventStatus::Other(state.to_owned())
        };
        RawEventRecord {
            home_team: String::new(),
            away_team: String::new(),
            home_score: -1,
            away_score: -1,
            status,
            error: String::new(),
        }
    }
}

} // verus!
