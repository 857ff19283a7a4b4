//! The two oracle paths: requests for event data and the callbacks that
//! settle a market from what comes back.
use crate::contract::{is_open, resolution_step, ContractError, NearCast, ResolutionEffect, OUTLAYER_MIN_DEPOSIT};
use crate::decider::{determine_winner, verdict_index};
use crate::model::{EventStatus, Market, RawEventRecord, Verdict};
use crate::text::{chars_of, contains, contains_chars, str_eq};
use vstd::prelude::*;

verus! {

/// Host name of the external data provider that attestations must name.
pub const CANONICAL_SERVER: &'static str = "site.api.espn.com";

/// Build target of the worker run by the delegated-execution service.
pub const BUILD_TARGET: &'static str = "wasm32-wasip2";

pub const MAX_INSTRUCTIONS: u64 = 1_000_000_000;

pub const MAX_MEMORY_MB: u32 = 128;

pub const MAX_EXECUTION_SECONDS: u32 = 60;

/// A job for the delegated-execution service: which code to run, within
/// which limits, on which event. The outcome labels are not part of it.
#[derive(Clone, Debug)]
pub struct ComputeRequest {
    pub market_id: u64,
    pub outlayer_contract: String,
    pub source_repo: String,
    pub source_commit: String,
    pub build_target: String,
    pub max_instructions: u64,
    pub max_memory_mb: u32,
    pub max_execution_seconds: u32,
    pub espn_event_id: String,
    pub sport: String,
    pub league: String,
    /// Attached to the request, to pay for the job.
    pub deposit: u128,
}

/// A lookup of an attestation, with the values its submitter claims for
/// the event, to be checked against it.
#[derive(Clone, Debug)]
pub struct AttestationRequest {
    pub market_id: u64,
    pub tls_oracle_contract: String,
    pub attestation_id: u64,
    pub expected_home_score: i32,
    pub expected_away_score: i32,
    pub expected_home_team: String,
    pub expected_away_team: String,
    pub expected_event_status: String,
}

/// What a callback received from the service it asked.
#[derive(Clone, Debug)]
pub enum Delivery<T> {
    /// The call failed.
    Failed,
    /// The call returned data that does not parse; the parser's message.
    Malformed(String),
    Delivered(T),
}

/// Event data in the compact form carried inside an attestation.
#[derive(Clone, Debug)]
pub struct CompactEventRecord {
    pub ht: String,
    pub at: String,
    pub hs: i32,
    pub away_score: i32,
    pub st: String,
    pub eid: String,
}

/// An attestation: the URL fetched, the server it was fetched from, and the
/// response, parsed or with the parser's message.
#[derive(Debug)]
pub struct AttestationRecord {
    pub source_url: String,
    pub server_name: String,
    pub payload: Result<CompactEventRecord, String>,
}

/// Result of an oracle callback.
#[derive(Clone, Debug)]
pub enum OracleReport {
    CallFailed,
    ParseError(String),
    MarketNotFound,
    InvalidServerName,
    SourceMismatch,
    PayloadParseError(String),
    ScoreMismatch,
    /// A verdict was computed and handed to `apply_resolution`.
    Decided { verdict: Verdict, home_score: i32, away_score: i32, effect: ResolutionEffect },
}

/// Why a resolution request for `market_id` would be refused, or `None`.
pub open spec fn eligibility_error(s: NearCast, market_id: u64, now: u64) -> Option<ContractError> {
    let m = s.market_list()[market_id as int];
    if market_id >= s.market_list().len() {
        Some(ContractError::MarketNotFound)
    } else if m.espn_event_id@.len() == 0 {
        Some(ContractError::NotSportsMarket)
    } else if !is_open(m) {
        Some(ContractError::AlreadySettled)
    } else if now < m.resolution_date {
        Some(ContractError::TooEarly)
    } else {
        None
    }
}

/// Why `request_resolution` would refuse, or `None`.
pub open spec fn compute_request_error(s: NearCast, market_id: u64, deposit: u128, now: u64) -> Option<
    ContractError,
> {
    if deposit < OUTLAYER_MIN_DEPOSIT {
        Some(ContractError::DepositTooSmall)
    } else if s.oracle_config().source_repo@.len() == 0 {
        Some(ContractError::OracleSourceNotSet)
    } else {
        eligibility_error(s, market_id, now)
    }
}

/// The store after a verdict from record `e` on market `market_id`.
pub open spec fn settled_by(s0: NearCast, s1: NearCast, market_id: u64, e: RawEventRecord) -> bool {
    let m = s0.market_list()[market_id as int];
    let v = verdict_index(m, e);
    &&& s1.market_list() == s0.market_list().update(
        market_id as int,
        resolution_step(m, v, if v >= 0 { 100 } else { 0 }, e.status is Final),
    )
    &&& s1.bet_list() == s0.bet_list()
    &&& forall|w: Seq<char>| #[trigger] s1.balance(w) == s0.balance(w)
    &&& s1.volume() == s0.volume()
}

impl NearCast {
    /// Checks that market `market_id` may be resolved now, without changing anything.
    fn check_eligible(&self, market_id: u64, now: u64) -> (r: Result<&Market, ContractError>)
        ensures
            r matches Err(e) ==> eligibility_error(*self, market_id, now) == Some(e),
            r is Ok <==> eligibility_error(*self, market_id, now) is None,
            r matches Ok(m) ==> *m == self.market_list()[market_id as int],
    {
        let m = match self.market(market_id) {
            Some(m) => m,
            None => return Err(ContractError::MarketNotFound),
        };
        if m.espn_event_id.as_str().is_empty() {
            return Err(ContractError::NotSportsMarket);
        }
        if !(m.status == crate::model::MarketStatus::Active || m.status
            == crate::model::MarketStatus::Closed) {
            return Err(ContractError::AlreadySettled);
        }
        if now < m.resolution_date {
            return Err(ContractError::TooEarly);
        }
        Ok(m)
    }

    /// First step of the delegated-compute path: anyone may ask, with a
    /// deposit, for the event data of an eligible market. Changes nothing;
    /// the request names the worker, its limits and the event only.
    pub fn request_resolution(&self, market_id: u64, deposit: u128, now: u64) -> (r: Result<
        ComputeRequest,
        ContractError,
    >)
        ensures
            r matches Err(e) ==> compute_request_error(*self, market_id, deposit, now) == Some(e),
            r is Ok <==> compute_request_error(*self, market_id, deposit, now) is None,
            r matches Ok(q) ==> {
                let m = self.market_list()[market_id as int];
                let c = self.oracle_config();
                &&& q.market_id == market_id
                &&& q.outlayer_contract == c.outlayer_contract
                &&& q.source_repo == c.source_repo
                &&& q.source_commit == c.source_commit
                &&& q.build_target@ == BUILD_TARGET@
                &&& q.max_instructions == MAX_INSTRUCTIONS
                &&& q.max_memory_mb == MAX_MEMORY_MB
                &&& q.max_execution_seconds == MAX_EXECUTION_SECONDS
                &&& q.espn_event_id == m.espn_event_id
                &&& q.sport == m.sport
                &&& q.league == m.league
                &&& q.deposit == deposit
            },
    {
        if deposit < OUTLAYER_MIN_DEPOSIT {
            return Err(ContractError::DepositTooSmall);
        }
        let config = self.get_outlayer_config();
        if config.source_repo.as_str().is_empty() {
            return Err(ContractError::OracleSourceNotSet);
        }
        let m = self.check_eligible(market_id, now)?;
        Ok(ComputeRequest {
            market_id,
            outlayer_contract: config.outlayer_contract,
            source_repo: config.source_repo,
            source_commit: config.source_commit,
            build_target: BUILD_TARGET.to_owned(),
            max_instructions: MAX_INSTRUCTIONS,
            max_memory_mb: MAX_MEMORY_MB,
            max_execution_seconds: MAX_EXECUTION_SECONDS,
            espn_event_id: m.espn_event_id.clone(),
            sport: m.sport.clone(),
            league: m.league.clone(),
            deposit,
        })
    }

    /// Computes the verdict for market `market_id` from `record` and applies it.
    fn settle_from_record(&mut self, market_id: u64, record: &RawEventRecord) -> (r: OracleReport)
        requires
            old(self).wf(),
            market_id < old(self).market_list().len(),
        ensures
            final(self).wf(),
            settled_by(*old(self), *final(self), market_id, *record),
            r matches OracleReport::Decided { verdict, home_score, away_score, .. } && verdict.outcome
                == verdict_index(old(self).market_list()[market_id as int], *record) && home_score
                == record.home_score && away_score == record.away_score,
            final(self).owner_id() == old(self).owner_id(),
            final(self).oracle_config() == old(self).oracle_config(),
    {
        let verdict = match self.market(market_id) {
            Some(m) => determine_winner(m, record),
            None => {
                return OracleReport::MarketNotFound;
            },
        };
        let effect = self.apply_resolution(market_id, &verdict, &record.status);
        OracleReport::Decided {
            verdict,
            home_score: record.home_score,
            away_score: record.away_score,
            effect,
        }
    }

    /// Callback of the delegated-compute path. A failed or malformed delivery,
    /// or a missing market, changes nothing and leaves the market open to
    /// another request; a parsed record is decided and applied.
    pub fn on_resolution_result(&mut self, market_id: u64, upstream: Delivery<RawEventRecord>) -> (r:
        OracleReport)
        requires
            old(self).wf(),
        ensures
            final(self).wf(),
            upstream is Failed ==> r is CallFailed && *final(self) == *old(self),
            upstream matches Delivery::Malformed(e) ==> r == OracleReport::ParseError(e)
                && *final(self) == *old(self),
            upstream is Delivered && market_id >= old(self).market_list().len() ==> r is MarketNotFound
                && *final(self) == *old(self),
            upstream matches Delivery::Delivered(e) ==> market_id < old(self).market_list().len()
                ==> r is Decided && settled_by(*old(self), *final(self), market_id, e),
            final(self).owner_id() == old(self).owner_id(),
            final(self).oracle_config() == old(self).oracle_config(),
    {
        match upstream {
            Delivery::Failed => OracleReport::CallFailed,
            Delivery::Malformed(e) => OracleReport::ParseError(e),
            Delivery::Delivered(record) => {
                if market_id >= self.market_count() {
                    return OracleReport::MarketNotFound;
                }
                self.settle_from_record(market_id, &record)
            },
        }
    }
}


/// The checks an attestation must pass, in order, before its data is used;
/// `None` when it passes all of them.
pub open spec fn attestation_error(s: NearCast, market_id: u64, a: AttestationRecord, expected_home: i32, expected_away: i32) -> Option<OracleReport> {
    if a.server_name@ != CANONICAL_SERVER@ {
        Some(OracleReport::InvalidServerName)
    } else if market_id >= s.market_list().len() {
        Some(OracleReport::MarketNotFound)
    } else if !contains(a.source_url@, s.market_list()[market_id as int].espn_event_id@) {
        Some(OracleReport::SourceMismatch)
    } else {
        match a.payload {
            Err(e) => Some(OracleReport::PayloadParseError(e)),
            Ok(d) => if d.hs != expected_home || d.away_score != expected_away {
                Some(OracleReport::ScoreMismatch)
            } else {
                None
            },
        }
    }
}

/// The event record read from an attestation's compact data.
pub open spec fn attested_record(d: CompactEventRecord, e: RawEventRecord) -> bool {
    &&& e.home_team == d.ht
    &&& e.away_team == d.at
    &&& e.home_score == d.hs
    &&& e.away_score == d.away_score
    &&& (e.status is Final) == (d.st@ == "final"@)
    &&& e.error@.len() == 0
}

impl NearCast {
    /// First step of the attestation path: anyone may submit an attestation
    /// id with the values they claim for an eligible market's event. Changes
    /// nothing; the claimed values travel with the lookup, to be checked
    /// against the attestation.
    pub fn resolve_with_tls_attestation(
        &self,
        market_id: u64,
        attestation_id: u64,
        home_score: i32,
        away_score: i32,
        home_team: String,
        away_team: String,
        event_status: String,
        now: u64,
    ) -> (r: Result<AttestationRequest, ContractError>)
        ensures
            r matches Err(e) ==> eligibility_error(*self, market_id, now) == Some(e),
            r is Ok <==> eligibility_error(*self, market_id, now) is None,
            r matches Ok(q) ==> q.market_id == market_id && q.attestation_id == attestation_id
                && q.tls_oracle_contract == self.oracle_config().tls_oracle_contract
                && q.expected_home_score == home_score && q.expected_away_score == away_score
                && q.expected_home_team == home_team && q.expected_away_team == away_team
                && q.expected_event_status == event_status,
    {
        self.check_eligible(market_id, now)?;
        let config = self.get_outlayer_config();
        Ok(AttestationRequest {
            market_id,
            tls_oracle_contract: config.tls_oracle_contract,
            attestation_id,
            expected_home_score: home_score,
            expected_away_score: away_score,
            expected_home_team: home_team,
            expected_away_team: away_team,
            expected_event_status: event_status,
        })
    }

    /// Callback of the attestation path. The attestation must name the
    /// canonical data server, fetch a URL that holds the market's event key,
    /// carry data that parses, and agree with the claimed scores; then its
    /// data is decided and applied. Any failed check changes nothing.
    pub fn on_tls_attestation_result(
        &mut self,
        market_id: u64,
        attestation_id: u64,
        expected_home_score: i32,
        expected_away_score: i32,
        expected_home_team: String,
        expected_away_team: String,
        expected_event_status: String,
        fetched: Delivery<AttestationRecord>,
    ) -> (r: OracleReport)
        requires
            old(self).wf(),
        ensures
            final(self).wf(),
            fetched is Failed ==> r is CallFailed && *final(self) == *old(self),
            fetched matches Delivery::Malformed(e) ==> r == OracleReport::ParseError(e)
                && *final(self) == *old(self),
            fetched matches Delivery::Delivered(a) ==> match attestation_error(
                *old(self),
                market_id,
                a,
                expected_home_score,
                expected_away_score,
            ) {
                Some(rej) => r == rej && *final(self) == *old(self),
                None => r is Decided && exists|e: RawEventRecord|
                    attested_record(a.payload->Ok_0, e) && settled_by(
                        *old(self),
                        *final(self),
                        market_id,
                        e,
                    ),
            },
            final(self).owner_id() == old(self).owner_id(),
            final(self).oracle_config() == old(self).oracle_config(),
    {
        let a = match fetched {
            Delivery::Failed => return OracleReport::CallFailed,
            Delivery::Malformed(e) => return OracleReport::ParseError(e),
            Delivery::Delivered(a) => a,
        };
        if !str_eq(a.server_name.as_str(), CANONICAL_SERVER) {
            return OracleReport::InvalidServerName;
        }
        let m = match self.market(market_id) {
            Some(m) => m,
            None => return OracleReport::MarketNotFound,
        };
        let url = chars_of(a.source_url.as_str());
        let key = chars_of(m.espn_event_id.as_str());
        if !contains_chars(&url, &key) {
            return OracleReport::SourceMismatch;
        }
        let d = match a.payload {
            Err(e) => return OracleReport::PayloadParseError(e),
            Ok(d) => d,
        };
        if d.hs != expected_home_score || d.away_score != expected_away_score {
            return OracleReport::ScoreMismatch;
        }
        let status = EventStatus::from_tag(d.st.as_str());
        let record = RawEventRecord {
            home_team: d.ht,
            away_team: d.at,
            home_score: d.hs,
            away_score: d.away_score,
            status,
            error: String::new(),
        };
        let r = self.settle_from_record(market_id, &record);
        assert(attested_record(d, record));
        r
    }
}

} // verus!
