use nearcast::contract::{ContractError, NearCast, ResolutionEffect, MIN_BET, ONE_NEAR};
use nearcast::decider::determine_winner;
use nearcast::model::{EventStatus, MarketKind, MarketStatus, RawEventRecord, Reason, Verdict};
use nearcast::oracle::{AttestationRecord, CompactEventRecord, Delivery, OracleReport};
use nearcast::provider::{summarize_event, ProviderEvent};

const NOW: u64 = 1_000;

fn s(t: &str) -> String {
    t.to_string()
}

fn store() -> NearCast {
    NearCast::new(s("owner.near"), None)
}

fn open_market(c: &mut NearCast, outcomes: &[&str], kind: Option<&str>, event: Option<&str>) -> u64 {
    c.create_market(
        &s("creator.near"),
        NOW,
        s("Who wins?"),
        s(""),
        outcomes.iter().map(|o| o.to_string()).collect(),
        s("sports"),
        s("2000"),
        s("3000"),
        event.map(s),
        Some(s("soccer")),
        Some(s("eng.1")),
        kind.map(s),
    )
    .unwrap()
}

fn fund(c: &mut NearCast, who: &str, amount: u128) {
    c.deposit(&s(who), amount).unwrap();
}

fn record(home: &str, away: &str, hs: i32, aws: i32) -> RawEventRecord {
    RawEventRecord {
        home_team: s(home),
        away_team: s(away),
        home_score: hs,
        away_score: aws,
        status: EventStatus::Final,
        error: String::new(),
    }
}

fn verdict(outcome: i32, confidence: u8) -> Verdict {
    Verdict { outcome, confidence, reason: Reason::ScoresUnreadable }
}

#[test]
fn deposit_withdraw() {
    let mut c = store();
    assert_eq!(c.deposit(&s("a"), 0), Err(ContractError::ZeroAmount));
    fund(&mut c, "a", 500);
    fund(&mut c, "a", 200);
    assert_eq!(c.get_balance(&s("a")), 700);
    assert_eq!(c.get_balance(&s("b")), 0);
    assert_eq!(c.withdraw(&s("a"), 701), Err(ContractError::InsufficientBalance));
    assert_eq!(c.withdraw(&s("a"), 0), Err(ContractError::ZeroAmount));
    assert_eq!(c.withdraw(&s("a"), 300), Ok(300));
    assert_eq!(c.get_balance(&s("a")), 400);
    fund(&mut c, "b", u128::MAX);
    assert_eq!(c.deposit(&s("b"), 1), Err(ContractError::BalanceOverflow));
}

#[test]
fn create_market_validation() {
    let mut c = store();
    let outs = vec![s("A"), s("B")];
    let mk = |c: &mut NearCast, q: &str, outs: Vec<String>, end: &str, res: &str| {
        c.create_market(&s("x"), NOW, s(q), s(""), outs, s("c"), s(end), s(res), None, None, None, None)
    };
    assert_eq!(mk(&mut c, "Q", outs.clone(), "abc", "3000"), Err(ContractError::InvalidBetsEndDate));
    assert_eq!(mk(&mut c, "Q", outs.clone(), "2000", ""), Err(ContractError::InvalidResolutionDate));
    assert_eq!(mk(&mut c, "", outs.clone(), "2000", "3000"), Err(ContractError::BadQuestion));
    assert_eq!(mk(&mut c, &"q".repeat(501), outs.clone(), "2000", "3000"), Err(ContractError::BadQuestion));
    assert_eq!(mk(&mut c, "Q", vec![s("A")], "2000", "3000"), Err(ContractError::BadOutcomeCount));
    assert_eq!(mk(&mut c, "Q", outs.clone(), "1000", "3000"), Err(ContractError::BetsEndNotInFuture));
    assert_eq!(mk(&mut c, "Q", outs.clone(), "2000", "2000"), Err(ContractError::ResolutionBeforeBetsEnd));
    assert_eq!(mk(&mut c, "Q", vec![s("A"), s("")], "2000", "3000"), Err(ContractError::BadOutcomeLabel));
    assert_eq!(mk(&mut c, "Q", vec![s("A"), s("B"), s("A")], "2000", "3000"), Err(ContractError::DuplicateOutcomes));
    let long_desc = "d".repeat(2001);
    assert_eq!(
        c.create_market(&s("x"), NOW, s("Q"), long_desc, outs.clone(), s("c"), s("2000"), s("3000"), None, None, None, None),
        Err(ContractError::DescriptionTooLong)
    );
    assert_eq!(mk(&mut c, "Q", outs.clone(), "2000", "3000"), Ok(0));
    assert_eq!(mk(&mut c, "Q2", outs, "2000", "3000"), Ok(1));
    let m = c.get_market(1, NOW).unwrap();
    assert_eq!(m.id, 1);
    assert_eq!(m.outcome_pools, vec![0, 0]);
    assert_eq!(m.status, MarketStatus::Active);
    assert_eq!(m.resolved_outcome, -1);
    assert!(matches!(m.market_type, MarketKind::HeadToHead));
    assert_eq!(c.get_stats().total_markets, 2);
}

#[test]
fn place_bet_updates_pools() {
    let mut c = store();
    let id = open_market(&mut c, &["A", "Draw", "B"], None, Some("401"));
    fund(&mut c, "u1", 10 * ONE_NEAR);
    fund(&mut c, "u2", 10 * ONE_NEAR);
    assert_eq!(c.place_bet(&s("u1"), NOW, id, 0, MIN_BET - 1), Err(ContractError::StakeTooSmall));
    assert_eq!(c.place_bet(&s("u3"), NOW, id, 0, MIN_BET), Err(ContractError::InsufficientBalance));
    assert_eq!(c.place_bet(&s("u1"), NOW, 9, 0, MIN_BET), Err(ContractError::MarketNotFound));
    assert_eq!(c.place_bet(&s("u1"), 2000, id, 0, MIN_BET), Err(ContractError::BettingClosed));
    assert_eq!(c.place_bet(&s("u1"), NOW, id, 3, MIN_BET), Err(ContractError::InvalidOutcome));
    c.place_bet(&s("u1"), NOW, id, 0, ONE_NEAR).unwrap();
    c.place_bet(&s("u2"), NOW, id, 2, 3 * ONE_NEAR).unwrap();
    c.place_bet(&s("u1"), NOW, id, 2, 2 * ONE_NEAR).unwrap();
    let m = c.get_market(id, NOW).unwrap();
    assert_eq!(m.outcome_pools, vec![ONE_NEAR, 0, 5 * ONE_NEAR]);
    assert_eq!(m.total_pool, m.outcome_pools.iter().sum::<u128>());
    assert_eq!(m.total_bets, 3);
    assert_eq!(c.get_balance(&s("u1")), 7 * ONE_NEAR);
    assert_eq!(c.get_market_bets(id).len(), 3);
    assert_eq!(c.get_user_bets(&s("u1")).len(), 2);
    assert_eq!(c.get_stats().total_volume, 6 * ONE_NEAR);
    // shown as closed after the betting deadline
    assert_eq!(c.get_market(id, 2000).unwrap().status, MarketStatus::Closed);
}

#[test]
fn resolution_applies_once() {
    let mut c = store();
    let id = open_market(&mut c, &["A", "B"], None, Some("401"));
    assert_eq!(c.apply_resolution(id, &verdict(1, 100), &EventStatus::InProgress), ResolutionEffect::Pending);
    assert_eq!(c.apply_resolution(id, &verdict(5, 100), &EventStatus::Final), ResolutionEffect::Ignored);
    assert_eq!(c.apply_resolution(id, &verdict(1, 100), &EventStatus::Final), ResolutionEffect::Resolved);
    assert_eq!(c.apply_resolution(id, &verdict(0, 100), &EventStatus::Final), ResolutionEffect::AlreadySettled);
    assert_eq!(c.apply_resolution(id, &verdict(-1, 0), &EventStatus::Final), ResolutionEffect::AlreadySettled);
    let m = c.get_market(id, NOW).unwrap();
    assert_eq!(m.status, MarketStatus::Resolved);
    assert_eq!(m.resolved_outcome, 1);
    assert_eq!(c.apply_resolution(7, &verdict(0, 100), &EventStatus::Final), ResolutionEffect::MarketMissing);
}

#[test]
fn low_confidence_voids() {
    let mut c = store();
    let id = open_market(&mut c, &["A", "B"], None, Some("401"));
    assert_eq!(c.apply_resolution(id, &verdict(0, 29), &EventStatus::Final), ResolutionEffect::Voided);
    let m = c.get_market(id, NOW).unwrap();
    assert_eq!(m.status, MarketStatus::Voided);
    assert_eq!(m.resolved_outcome, -2);
}

#[test]
fn void_claim_refunds_every_stake_once() {
    let mut c = store();
    let id = open_market(&mut c, &["A", "B"], None, Some("401"));
    fund(&mut c, "u1", 10 * ONE_NEAR);
    fund(&mut c, "u2", 10 * ONE_NEAR);
    c.place_bet(&s("u1"), NOW, id, 0, ONE_NEAR).unwrap();
    c.place_bet(&s("u1"), NOW, id, 1, 2 * ONE_NEAR).unwrap();
    c.place_bet(&s("u2"), NOW, id, 1, 4 * ONE_NEAR).unwrap();
    assert_eq!(c.claim_winnings(&s("u1"), id), Err(ContractError::NotSettled));
    assert_eq!(c.apply_resolution(id, &verdict(-1, 0), &EventStatus::Final), ResolutionEffect::Voided);
    assert_eq!(c.claim_winnings(&s("u1"), id), Ok(3 * ONE_NEAR));
    assert_eq!(c.get_balance(&s("u1")), 10 * ONE_NEAR);
    assert!(c.get_user_bets(&s("u1")).iter().all(|b| b.claimed));
    assert!(c.get_user_bets(&s("u2")).iter().all(|b| !b.claimed));
    assert_eq!(c.claim_winnings(&s("u1"), id), Err(ContractError::AlreadyClaimed));
    assert_eq!(c.claim_winnings(&s("u3"), id), Err(ContractError::NothingToClaim));
    assert_eq!(c.claim_winnings(&s("u1"), 9), Err(ContractError::MarketNotFound));
}

#[test]
fn resolved_claim_pays_proportional_share() {
    let mut c = store();
    let id = open_market(&mut c, &["A", "B", "C"], None, Some("401"));
    for u in ["w1", "w2", "l1"].iter() {
        fund(&mut c, u, 1000);
    }
    // amounts in units of MIN_BET: 100 of 300 on the winner, 1000 in total
    let unit = MIN_BET;
    fund(&mut c, "w1", 1000 * unit);
    fund(&mut c, "w2", 1000 * unit);
    fund(&mut c, "l1", 1000 * unit);
    c.place_bet(&s("w1"), NOW, id, 1, 100 * unit).unwrap();
    c.place_bet(&s("w2"), NOW, id, 1, 200 * unit).unwrap();
    c.place_bet(&s("l1"), NOW, id, 0, 700 * unit).unwrap();
    assert_eq!(c.apply_resolution(id, &verdict(1, 100), &EventStatus::Final), ResolutionEffect::Resolved);
    let before = c.get_balance(&s("w1"));
    let paid = c.claim_winnings(&s("w1"), id).unwrap();
    assert_eq!(paid, 100 * unit * 1000 / 300);
    assert_eq!(c.get_balance(&s("w1")), before + paid);
    assert_eq!(c.claim_winnings(&s("l1"), id), Err(ContractError::NothingToClaim));
    assert_eq!(c.claim_winnings(&s("w1"), id), Err(ContractError::AlreadyClaimed));
}

#[test]
fn resolved_claim_exact_small_units() {
    let mut c = store();
    let id = open_market(&mut c, &["A", "B"], None, Some("401"));
    let unit = MIN_BET;
    fund(&mut c, "w", 1000 * unit);
    fund(&mut c, "v", 1000 * unit);
    fund(&mut c, "l", 1000 * unit);
    c.place_bet(&s("w"), NOW, id, 0, 100 * unit).unwrap();
    c.place_bet(&s("v"), NOW, id, 0, 200 * unit).unwrap();
    c.place_bet(&s("l"), NOW, id, 1, 700 * unit).unwrap();
    c.apply_resolution(id, &verdict(0, 100), &EventStatus::Final);
    let paid = c.claim_winnings(&s("w"), id).unwrap();
    // 100 * 1000 / 300 = 333.33.. units, truncated in the smallest unit
    assert_eq!(paid, 33_333_333_333_333_333_333_333_333);
}

#[test]
fn decider_rules() {
    let mut c = store();
    let id = open_market(&mut c, &["Arsenal", "Draw", "Chelsea"], None, Some("401"));
    let m = c.get_market(id, NOW).unwrap();
    let v = determine_winner(&m, &record("Chelsea FC", "Arsenal FC", 0, 2));
    assert_eq!((v.outcome, v.confidence), (0, 100));
    let mut r = record("Chelsea", "Arsenal", 1, 1);
    assert_eq!(determine_winner(&m, &r).outcome, 1);
    r.status = EventStatus::InProgress;
    let v = determine_winner(&m, &r);
    assert_eq!((v.outcome, v.confidence), (-1, 0));
    assert!(matches!(v.reason, Reason::NotCompleted { status: EventStatus::InProgress }));
    let mut r = record("Chelsea", "Arsenal", 1, 1);
    r.error = s("timeout");
    assert!(matches!(determine_winner(&m, &r).reason, Reason::SourceError { .. }));
    let r = record("Chelsea", "Arsenal", -1, 1);
    assert!(matches!(determine_winner(&m, &r).reason, Reason::ScoresUnreadable));
    let id2 = open_market(&mut c, &["Yes", "No"], Some("corners"), Some("402"));
    let m2 = c.get_market(id2, NOW).unwrap();
    let v = determine_winner(&m2, &record("A", "B", 1, 1));
    assert_eq!(v.outcome, -1);
    assert!(matches!(v.reason, Reason::UnknownMarketType { .. }));
    let id3 = open_market(&mut c, &["Yes", "No"], Some("both-score"), Some("403"));
    let m3 = c.get_market(id3, NOW).unwrap();
    assert_eq!(determine_winner(&m3, &record("A", "B", 1, 1)).outcome, 0);
    let id4 = open_market(&mut c, &["Over 2.5", "Under 2.5"], Some("over-under"), Some("404"));
    let m4 = c.get_market(id4, NOW).unwrap();
    assert_eq!(determine_winner(&m4, &record("A", "B", 2, 0)).outcome, 1);
}

#[test]
fn compute_path_requests_and_settles() {
    let mut c = store();
    let id = open_market(&mut c, &["Arsenal", "Draw", "Chelsea"], None, Some("401"));
    let no_event = open_market(&mut c, &["A", "B"], None, None);
    assert_eq!(c.request_resolution(id, MIN_BET, 3000).err(), Some(ContractError::OracleSourceNotSet));
    assert_eq!(c.set_outlayer_config(&s("mallory"), s("repo"), None, None), Err(ContractError::NotOwner));
    c.set_outlayer_config(&s("owner.near"), s("github.com/x/worker"), Some(s("abc123")), None).unwrap();
    assert_eq!(c.request_resolution(id, MIN_BET - 1, 3000).err(), Some(ContractError::DepositTooSmall));
    assert_eq!(c.request_resolution(id, MIN_BET, 2999).err(), Some(ContractError::TooEarly));
    assert_eq!(c.request_resolution(no_event, MIN_BET, 3000).err(), Some(ContractError::NotSportsMarket));
    assert_eq!(c.request_resolution(42, MIN_BET, 3000).err(), Some(ContractError::MarketNotFound));
    let q = c.request_resolution(id, MIN_BET, 3000).unwrap();
    assert_eq!(q.espn_event_id, "401");
    assert_eq!(q.source_commit, "abc123");
    assert_eq!(q.outlayer_contract, "outlayer.testnet");
    assert_eq!(q.build_target, "wasm32-wasip2");

    assert!(matches!(c.on_resolution_result(id, Delivery::Failed), OracleReport::CallFailed));
    assert!(matches!(c.on_resolution_result(id, Delivery::Malformed(s("eof"))), OracleReport::ParseError(_)));
    assert!(matches!(c.on_resolution_result(99, Delivery::Delivered(record("A", "B", 1, 0))), OracleReport::MarketNotFound));
    assert_eq!(c.get_market(id, 3000).unwrap().status, MarketStatus::Closed);

    let report = c.on_resolution_result(id, Delivery::Delivered(record("Chelsea", "Arsenal", 3, 1)));
    match report {
        OracleReport::Decided { verdict, home_score, away_score, effect } => {
            assert_eq!(verdict.outcome, 2);
            assert_eq!((home_score, away_score), (3, 1));
            assert_eq!(effect, ResolutionEffect::Resolved);
        }
        _ => panic!("unexpected report"),
    }
    assert_eq!(c.get_market(id, 3000).unwrap().resolved_outcome, 2);
    assert_eq!(c.request_resolution(id, MIN_BET, 3000).err(), Some(ContractError::AlreadySettled));
}

fn attestation(server: &str, url: &str, hs: i32, aws: i32) -> AttestationRecord {
    AttestationRecord {
        source_url: s(url),
        server_name: s(server),
        payload: Ok(CompactEventRecord {
            ht: s("Arsenal"),
            at: s("Chelsea"),
            hs,
            away_score: aws,
            st: s("final"),
            eid: s("401"),
        }),
    }
}

fn tls(c: &mut NearCast, id: u64, hs: i32, aws: i32, a: Delivery<AttestationRecord>) -> OracleReport {
    c.on_tls_attestation_result(id, 7, hs, aws, s("Arsenal"), s("Chelsea"), s("final"), a)
}

const URL: &str = "https://site.api.espn.com/apis/site/v2/sports/soccer/eng.1/summary?event=401";

#[test]
fn attestation_path_checks() {
    let mut c = store();
    let id = open_market(&mut c, &["Arsenal", "Draw", "Chelsea"], None, Some("401"));
    assert_eq!(
        c.resolve_with_tls_attestation(id, 7, 2, 1, s("Arsenal"), s("Chelsea"), s("final"), 2999).err(),
        Some(ContractError::TooEarly)
    );
    let q = c.resolve_with_tls_attestation(id, 7, 2, 1, s("Arsenal"), s("Chelsea"), s("final"), 3000).unwrap();
    assert_eq!(q.tls_oracle_contract, "tls-oracle-v2.nearcast-oracle.testnet");
    assert_eq!(q.expected_home_score, 2);

    assert!(matches!(tls(&mut c, id, 2, 1, Delivery::Failed), OracleReport::CallFailed));
    assert!(matches!(tls(&mut c, id, 2, 1, Delivery::Malformed(s("bad"))), OracleReport::ParseError(_)));
    // right scores, wrong server
    assert!(matches!(tls(&mut c, id, 2, 1, Delivery::Delivered(attestation("evil.example.com", URL, 2, 1))), OracleReport::InvalidServerName));
    assert!(matches!(tls(&mut c, 99, 2, 1, Delivery::Delivered(attestation("site.api.espn.com", URL, 2, 1))), OracleReport::MarketNotFound));
    assert!(matches!(
        tls(&mut c, id, 2, 1, Delivery::Delivered(attestation("site.api.espn.com", "https://site.api.espn.com/summary?event=999", 2, 1))),
        OracleReport::SourceMismatch
    ));
    let broken = AttestationRecord { source_url: s(URL), server_name: s("site.api.espn.com"), payload: Err(s("expected value")) };
    assert!(matches!(tls(&mut c, id, 2, 1, Delivery::Delivered(broken)), OracleReport::PayloadParseError(_)));
    assert!(matches!(tls(&mut c, id, 3, 1, Delivery::Delivered(attestation("site.api.espn.com", URL, 2, 1))), OracleReport::ScoreMismatch));
    assert_eq!(c.get_market(id, 3000).unwrap().status, MarketStatus::Closed);

    let report = tls(&mut c, id, 2, 1, Delivery::Delivered(attestation("site.api.espn.com", URL, 2, 1)));
    assert!(matches!(report, OracleReport::Decided { effect: ResolutionEffect::Resolved, .. }));
    let m = c.get_market(id, 3000).unwrap();
    assert_eq!((m.status, m.resolved_outcome), (MarketStatus::Resolved, 0));
    // the other path now finds the market settled
    let again = c.on_resolution_result(id, Delivery::Delivered(record("Arsenal", "Chelsea", 0, 5)));
    assert!(matches!(again, OracleReport::Decided { effect: ResolutionEffect::AlreadySettled, .. }));
    assert_eq!(c.get_market(id, 3000).unwrap().resolved_outcome, 0);
}

#[test]
fn tls_config_owner_only() {
    let mut c = store();
    assert_eq!(c.set_tls_oracle_config(&s("x"), s("other.near")), Err(ContractError::NotOwner));
    c.set_tls_oracle_config(&s("owner.near"), s("other.near")).unwrap();
    assert_eq!(c.get_outlayer_config().tls_oracle_contract, "other.near");
    assert_eq!(c.get_stats().oracle, "owner.near");
}

#[test]
fn listing_filters_and_pages() {
    let mut c = store();
    for k in 0..5 {
        let cat = if k % 2 == 0 { "sports" } else { "politics" };
        c.create_market(&s("x"), NOW, s("Q"), s(""), vec![s("A"), s("B")], s(cat), s("2000"), s("3000"), None, None, None, None)
            .unwrap();
    }
    c.apply_resolution(4, &verdict(-1, 0), &EventStatus::Final);
    let ids = |v: Vec<nearcast::model::Market>| v.iter().map(|m| m.id).collect::<Vec<u64>>();
    assert_eq!(ids(c.get_markets(None, None, None, None, NOW)), vec![4, 3, 2, 1, 0]);
    assert_eq!(ids(c.get_markets(Some(1), Some(2), None, None, NOW)), vec![3, 2]);
    assert_eq!(ids(c.get_markets(None, None, Some(s("sports")), None, NOW)), vec![4, 2, 0]);
    assert_eq!(ids(c.get_markets(None, None, Some(s("все")), Some(s("active")), NOW)), vec![3, 2, 1, 0]);
    assert_eq!(ids(c.get_markets(None, None, None, Some(s("voided")), NOW)), vec![4]);
    assert_eq!(ids(c.get_markets(None, None, None, Some(s("closed")), 2000)), vec![3, 2, 1, 0]);
    assert_eq!(ids(c.get_markets(Some(10), None, None, None, NOW)), Vec::<u64>::new());
}

#[test]
fn provider_report_summary() {
    let over = ProviderEvent {
        completed: Some(true),
        state: Some(s("post")),
        home_team: Some(s("Arsenal")),
        away_team: Some(s("Chelsea")),
        home_score: Some(s("2")),
        away_score: Some(s("1")),
    };
    let r = summarize_event(&over);
    assert!(matches!(r.status, EventStatus::Final));
    assert_eq!((r.home_score, r.away_score), (2, 1));
    assert_eq!(r.home_team, "Arsenal");
    let mut live = over.clone();
    live.completed = Some(false);
    live.state = Some(s("in"));
    assert!(matches!(summarize_event(&live).status, EventStatus::InProgress));
    let mut unknown = over.clone();
    unknown.state = None;
    match summarize_event(&unknown).status {
        EventStatus::Other(t) => assert_eq!(t, "unknown"),
        _ => panic!("unexpected status"),
    }
    let mut bad = over.clone();
    bad.away_score = Some(s("n/a"));
    let r = summarize_event(&bad);
    assert!(matches!(r.status, EventStatus::Error));
    assert!(!r.error.is_empty());
}

#[test]
fn status_and_kind_tags() {
    assert!(matches!(EventStatus::from_tag("final"), EventStatus::Final));
    assert!(matches!(EventStatus::from_tag("pre"), EventStatus::Pre));
    assert!(matches!(EventStatus::from_tag("post"), EventStatus::Other(_)));
    assert!(matches!(MarketKind::from_tag("over-under"), MarketKind::ThresholdTotal));
    assert_eq!(MarketStatus::Voided.tag(), "voided");
}
