//! Reduction of a data provider's event report to a raw event record, as
//! the worker inside the trusted execution environment does it.
use crate::model::{EventStatus, RawEventRecord};
use crate::numbers::{parse_i32, signed_value};
use crate::text::str_eq;
use vstd::prelude::*;

verus! {

/// The fields of a provider report that matter, each as it came (`None` where absent).
#[derive(Clone, Debug)]
pub struct ProviderEvent {
    pub completed: Option<bool>,
    /// `pre`, `in` or `post`.
    pub state: Option<String>,
    pub home_team: Option<String>,
    pub away_team: Option<String>,
    pub home_score: Option<String>,
    pub away_score: Option<String>,
}

/// A score as reported, or -1 where absent or not an `i32`.
pub open spec fn score_of(t: Option<String>) -> int {
    match t {
        Some(s) => match signed_value(s@) {
            Some(v) => if i32::MIN <= v <= i32::MAX { v } else { -1 },
            None => -1,
        },
        None => -1,
    }
}

fn read_score(t: &Option<String>) -> (r: i32)
    ensures
        r == score_of(*t),
{
    match t {
        Some(s) => match parse_i32(s.as_str()) {
            Some(v) => v,
            None => -1,
        },
        None => -1,
    }
}

fn text_or_default(t: &Option<String>) -> (r: String)
    ensures
        r@ == (match *t {
            Some(s) => s@,
            None => Seq::empty(),
        }),
{
    match t {
        Some(s) => s.clone(),
        None => String::new(),
    }
}

/// The event is over: reported completed, in state `post`.
pub open spec fn is_over(e: ProviderEvent) -> bool {
    e.completed == Some(true) && e.state is Some && e.state->Some_0@ == "post"@
}

/// The record the worker hands back for a provider report: not finished
/// (with the reported state, `unknown` if none) unless completed in state
/// `post`; an error if a score is missing or negative; else final with both
/// teams and scores.
pub fn summarize_event(e: &ProviderEvent) -> (r: RawEventRecord)
    ensures
        !is_over(*e) ==> !(r.status is Final) && r.error@.len() == 0 && r.home_score == -1
            && r.away_score == -1,
        is_over(*e) && (score_of(e.home_score) < 0 || score_of(e.away_score) < 0) ==> r.status is Error
            && r.error@.len() > 0,
        is_over(*e) && score_of(e.home_score) >= 0 && score_of(e.away_score) >= 0 ==> {
            &&& r.status is Final
            &&& r.error@.len() == 0
            &&& r.home_score == score_of(e.home_score)
            &&& r.away_score == score_of(e.away_score)
            &&& r.home_team@ == (match e.home_team { Some(s) => s@, None => Seq::empty() })
            &&& r.away_team@ == (match e.away_team { Some(s) => s@, None => Seq::empty() })
        },
{
    let over = match (&e.completed, &e.state) {
        (Some(true), Some(s)) => str_eq(s.as_str(), "post"),
        _ => false,
    };
    if !over {
        let state = match &e.state {
            Some(s) => s.as_str(),
            None => "unknown",
        };
        return RawEventRecord::not_finished(state);
    }
    let home_score = read_score(&e.home_score);
    let away_score = read_score(&e.away_score);
    if home_score < 0 || away_score < 0 {
        proof {
            reveal_strlit("Could not parse scores from ESPN");
        }
        return RawEventRecord::error("Could not parse scores from ESPN");
    }
    RawEventRecord {
        home_team: text_or_default(&e.home_team),
        away_team: text_or_default(&e.away_team),
        home_score,
        away_score,
        status: EventStatus::Final,
        error: String::new(),
    }
}

} // verus!
