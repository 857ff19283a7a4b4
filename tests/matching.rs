use nearcast::arith::safe_mul_div;
use nearcast::matcher::{fuzzy_match, fuzzy_match_folded, resolve_both_score, resolve_over_under, resolve_winner};
use nearcast::model::Reason;
use nearcast::numbers::{parse_i32, parse_u64};

fn labels(v: &[&str]) -> Vec<String> {
    v.iter().map(|s| s.to_string()).collect()
}

#[test]
fn mul_div_small_values() {
    assert_eq!(safe_mul_div(100, 1000, 300), 333);
    assert_eq!(safe_mul_div(0, 1000, 7), 0);
    assert_eq!(safe_mul_div(7, 0, 3), 0);
    assert_eq!(safe_mul_div(10, 10, 1), 100);
}

/// Reference `a * b / c` through a 256-bit product and bitwise long division.
fn wide_mul_div(a: u128, b: u128, c: u128) -> u128 {
    let (a1, a0) = (a >> 64, a & u64::MAX as u128);
    let (b1, b0) = (b >> 64, b & u64::MAX as u128);
    let p00 = a0 * b0;
    let p01 = a0 * b1;
    let p10 = a1 * b0;
    let p11 = a1 * b1;
    let mid = (p00 >> 64) + (p01 & u64::MAX as u128) + (p10 & u64::MAX as u128);
    let lo = (p00 & u64::MAX as u128) | (mid << 64);
    let hi = p11 + (p01 >> 64) + (p10 >> 64) + (mid >> 64);
    let mut q: u128 = 0;
    let mut r: u128 = 0;
    for i in (0..256).rev() {
        let bit = if i >= 128 { (hi >> (i - 128)) & 1 } else { (lo >> i) & 1 };
        let carry = r >> 127;
        r = (r << 1) | bit;
        if carry == 1 || r >= c {
            r = r.wrapping_sub(c);
            if i < 128 {
                q |= 1u128 << i;
            }
        }
    }
    q
}

#[test]
fn mul_div_full_range() {
    let max = u128::MAX;
    assert_eq!(safe_mul_div(max, max, max), max);
    assert_eq!(safe_mul_div(1u128 << 99, 3u128 << 99, 1u128 << 100), 3u128 << 98);
    assert_eq!(wide_mul_div(1u128 << 99, 3u128 << 99, 1u128 << 100), 3u128 << 98);
    let cases: [(u128, u128, u128); 5] = [
        ((1u128 << 99) + 777, (1u128 << 100) + (1u128 << 99) + 99, (1u128 << 100) + 12345),
        (max - 1, max, max),
        (max / 2, 2, 3),
        ((1u128 << 127) + 5, (1u128 << 126) + 3, (1u128 << 127) + 1),
        (123_456_789_123_456_789_123_456_789, 987_654_321_987_654_321_987_654_321, 555_555_555_555_555_555_555_555_555),
    ];
    for (a, b, c) in cases.iter() {
        assert_eq!(safe_mul_div(*a, *b, *c), wide_mul_div(*a, *b, *c));
    }
}

#[test]
fn mul_div_pari_mutuel_yocto_scale() {
    let one: u128 = 1_000_000_000_000_000_000_000_000;
    // 100 tokens on the winner out of a 300-token winning pool and 1000-token total pool
    assert_eq!(safe_mul_div(100 * one, 1000 * one, 300 * one), 333_333_333_333_333_333_333_333_333);
}

#[test]
fn fuzzy_exact_and_case() {
    assert!(fuzzy_match("Arsenal", "Arsenal"));
    assert!(fuzzy_match("ARSENAL", "arsenal"));
}

#[test]
fn fuzzy_substring() {
    assert!(fuzzy_match("Olympiacos", "Olympiacos FC"));
    assert!(fuzzy_match("Olympiacos FC", "Olympiacos"));
}

#[test]
fn fuzzy_long_token() {
    assert!(fuzzy_match("Real Madrid", "Madrid Real Club"));
    assert!(fuzzy_match("Bayer Leverkusen", "Leverkusen 04"));
    assert!(!fuzzy_match("FC Porto", "FC Basel"));
}

#[test]
fn fuzzy_empty_never_matches() {
    assert!(!fuzzy_match("", "Arsenal"));
    assert!(!fuzzy_match("Arsenal", ""));
    assert!(!fuzzy_match("", ""));
}

#[test]
fn fuzzy_symmetric_on_samples() {
    let names = ["Olympiacos", "Olympiacos FC", "Real Madrid", "Madrid", "PSG", "Paris SG", "B United"];
    for a in names.iter() {
        for b in names.iter() {
            assert_eq!(fuzzy_match(a, b), fuzzy_match(b, a));
        }
    }
}

#[test]
fn fuzzy_folded_does_not_fold() {
    assert!(!fuzzy_match_folded("ARSENAL", "arsenal"));
    assert!(fuzzy_match_folded("arsenal", "arsenal"));
}

#[test]
fn head_to_head_three_way_home_wins() {
    let (i, reason) = resolve_winner(&labels(&["A", "Draw", "B"]), 2, 1, "A FC", "B United");
    assert_eq!(i, 0);
    match reason {
        Reason::Wins { label, first, second } => {
            assert_eq!(label, "A");
            assert_eq!((first, second), (2, 1));
        }
        _ => panic!("unexpected reason"),
    }
}

#[test]
fn head_to_head_three_way_away_and_draw() {
    let outs = labels(&["Zenit", "Draw", "Spartak"]);
    assert_eq!(resolve_winner(&outs, 0, 3, "Zenit", "Spartak Moscow").0, 2);
    assert_eq!(resolve_winner(&outs, 1, 1, "Zenit", "Spartak").0, 1);
    // away team listed first
    assert_eq!(resolve_winner(&outs, 2, 0, "Spartak", "Zenit").0, 2);
}

#[test]
fn head_to_head_draw_slot_any_case_and_position() {
    let outs = labels(&["DRAW", "Home", "Away"]);
    assert_eq!(resolve_winner(&outs, 1, 1, "x", "y").0, 0);
    // no name matches: positional fallback among the non-draw slots
    assert_eq!(resolve_winner(&outs, 3, 1, "x", "y").0, 1);
    assert_eq!(resolve_winner(&outs, 1, 3, "x", "y").0, 2);
    let ru = labels(&["Зенит", "Ничья", "Спартак"]);
    assert_eq!(resolve_winner(&ru, 0, 0, "x", "y").0, 1);
}

#[test]
fn head_to_head_three_way_without_draw_slot() {
    let (i, reason) = resolve_winner(&labels(&["A", "B", "C"]), 1, 1, "A", "B");
    assert_eq!(i, -1);
    assert!(matches!(reason, Reason::DrawWithoutSlot { home: 1, away: 1 }));
}

#[test]
fn head_to_head_two_way_tie_is_indeterminate() {
    let (i, reason) = resolve_winner(&labels(&["A", "B"]), 2, 2, "A", "B");
    assert_eq!(i, -1);
    assert!(matches!(reason, Reason::TieInTwoWay { home: 2, away: 2 }));
}

#[test]
fn head_to_head_two_way_matches_names() {
    let outs = labels(&["Lakers", "Celtics"]);
    assert_eq!(resolve_winner(&outs, 100, 90, "Boston Celtics", "Los Angeles Lakers").0, 1);
    assert_eq!(resolve_winner(&outs, 90, 100, "Boston Celtics", "Los Angeles Lakers").0, 0);
    assert_eq!(resolve_winner(&outs, 100, 90, "x", "y").0, 0);
}

#[test]
fn head_to_head_bad_count() {
    let (i, reason) = resolve_winner(&labels(&["A"]), 1, 0, "A", "B");
    assert_eq!(i, -1);
    assert!(matches!(reason, Reason::BadOutcomeCount));
}

#[test]
fn threshold_total_over_and_under() {
    let outs = labels(&["Over 2.5", "Under 2.5"]);
    assert_eq!(resolve_over_under(&outs, 2, 1).0, 0);
    assert_eq!(resolve_over_under(&outs, 1, 1).0, 1);
}

#[test]
fn threshold_total_reads_first_number() {
    assert_eq!(resolve_over_under(&labels(&["Total over 3", "Under"]), 2, 1).0, 1);
    assert_eq!(resolve_over_under(&labels(&["Over 3.5 goals", "Under"]), 2, 2).0, 0);
    assert_eq!(resolve_over_under(&labels(&["Over x 200.5", "Under"]), 100, 100).0, 1);
    // no number: 2.5
    assert_eq!(resolve_over_under(&labels(&["Over", "Under"]), 2, 1).0, 0);
    assert_eq!(resolve_over_under(&labels(&["Over", "Under"]), 1, 1).0, 1);
    assert_eq!(resolve_over_under(&[], 3, 0).0, 0);
    match resolve_over_under(&labels(&["Over 2.5", "Under 2.5"]), 2, 1).1 {
        Reason::Total { total, over, threshold, .. } => {
            assert_eq!(total, 3);
            assert!(over);
            assert_eq!(threshold.as_deref(), Some("2.5"));
        }
        _ => panic!("unexpected reason"),
    }
}

#[test]
fn threshold_total_negative_and_huge() {
    assert_eq!(resolve_over_under(&labels(&["Over -0.5", "Under"]), 0, 0).0, 0);
    assert_eq!(resolve_over_under(&labels(&["Over 99999999999999999999", "Under"]), 5, 5).0, 1);
}

#[test]
fn both_score_rule() {
    assert_eq!(resolve_both_score(1, 2).0, 0);
    assert_eq!(resolve_both_score(0, 2).0, 1);
    assert_eq!(resolve_both_score(3, 0).0, 1);
}

#[test]
fn integer_parsing() {
    assert_eq!(parse_u64("1700000000000000000"), Some(1_700_000_000_000_000_000));
    assert_eq!(parse_u64("+5"), Some(5));
    assert_eq!(parse_u64("18446744073709551615"), Some(u64::MAX));
    assert_eq!(parse_u64("18446744073709551616"), None);
    assert_eq!(parse_u64(""), None);
    assert_eq!(parse_u64("-1"), None);
    assert_eq!(parse_u64("12a"), None);
    assert_eq!(parse_i32("-2147483648"), Some(i32::MIN));
    assert_eq!(parse_i32("2147483648"), None);
    assert_eq!(parse_i32("-"), None);
    assert_eq!(parse_i32("-+1"), None);
    assert_eq!(parse_i32("42"), Some(42));
}
