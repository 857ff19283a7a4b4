//! Outcome matcher: fuzzy label/team matching and the three settlement rules.
use crate::text::{
    byte_len, chars_of, contains, contains_chars, is_token, lower_of, lowercase, str_eq,
    token_spans,
};
use crate::model::Reason;
use crate::numbers::{decimal_floor, decimal_floor_of, is_decimal, THRESHOLD_CAP};
use vstd::prelude::*;

verus! {

/// Some token of `o` with at least four bytes equals a token of `e`.
pub open spec fn shares_long_token(o: Seq<char>, e: Seq<char>) -> bool {
    exists|a: int, b: int, c: int, d: int|
        #[trigger] is_token(o, a, b) && #[trigger] is_token(e, c, d) && o.subrange(a, b)
            == e.subrange(c, d) && byte_len(o.subrange(a, b)) >= 4
}

/// Matching on already case-folded text: equal, one inside the other, or a
/// shared token of four bytes or more.
pub open spec fn folded_match(o: Seq<char>, e: Seq<char>) -> bool {
    o == e || contains(o, e) || contains(e, o) || shares_long_token(o, e)
}

/// Case-insensitive fuzzy match of an outcome label against a team name.
pub open spec fn fuzzy_spec(label: Seq<char>, name: Seq<char>) -> bool {
    label.len() > 0 && name.len() > 0 && folded_match(lower_of(label), lower_of(name))
}

/// Whether `s[a..b]` takes four bytes or more in UTF-8.
fn is_long(s: &Vec<char>, a: usize, b: usize) -> (r: bool)
    requires
        a <= b <= s@.len(),
    ensures
        r == (byte_len(s@.subrange(a as int, b as int)) >= 4),
{
    let mut n: usize = 0;
    let mut k: usize = a;
    while k < b
        invariant
            a <= k <= b <= s@.len(),
            n <= 4,
            n < 4 ==> n == byte_len(s@.subrange(a as int, k as int)),
            n == 4 ==> byte_len(s@.subrange(a as int, k as int)) >= 4,
        decreases b - k,
    {
        let u = s[k] as u32;
        let w: usize = if u < 0x80 {
            1
        } else if u < 0x800 {
            2
        } else if u < 0x10000 {
            3
        } else {
            4
        };
        assert(s@.subrange(a as int, k + 1).drop_last() == s@.subrange(a as int, k as int));
        n = if n + w >= 4 { 4 } else { n + w };
        k = k + 1;
    }
    n == 4
}

/// Whether `x[a..b]` and `y[c..d]` hold the same characters.
fn same_run(x: &Vec<char>, a: usize, b: usize, y: &Vec<char>, c: usize, d: usize) -> (r: bool)
    requires
        a <= b <= x@.len(),
        c <= d <= y@.len(),
    ensures
        r == (x@.subrange(a as int, b as int) == y@.subrange(c as int, d as int)),
{
    if b - a != d - c {
        assert(x@.subrange(a as int, b as int).len() != y@.subrange(c as int, d as int).len());
        return false;
    }
    let n = b - a;
    let mut k: usize = 0;
    while k < n
        invariant
            n == b - a,
            n == d - c,
            a <= b <= x@.len(),
            c <= d <= y@.len(),
            k <= n,
            forall|i: int| 0 <= i < k ==> #[trigger] x@[a + i] == y@[c + i],
        decreases n - k,
    {
        if x[a + k] != y[c + k] {
            assert(x@.subrange(a as int, b as int)[k as int] != y@.subrange(
                c as int,
                d as int,
            )[k as int]);
            return false;
        }
        k = k + 1;
    }
    assert forall|i: int| 0 <= i < n implies #[trigger] x@.subrange(a as int, b as int)[i]
        == y@.subrange(c as int, d as int)[i] by {
        assert(x@[a + i] == y@[c + i]);
    }
    assert(x@.subrange(a as int, b as int) =~= y@.subrange(c as int, d as int));
    true
}

/// Fuzzy match on text that is already case-folded.
pub fn fuzzy_match_folded(o: &str, e: &str) -> (r: bool)
    ensures
        r == folded_match(o@, e@),
{
    if str_eq(o, e) {
        return true;
    }
    let oc = chars_of(o);
    let ec = chars_of(e);
    if contains_chars(&oc, &ec) || contains_chars(&ec, &oc) {
        return true;
    }
    let ot = token_spans(&oc);
    let et = token_spans(&ec);
    let mut i: usize = 0;
    while i < ot.len()
        invariant
            oc@ == o@,
            ec@ == e@,
            i <= ot@.len(),
            forall|k: int| 0 <= k < ot@.len() ==> is_token(oc@, #[trigger] ot@[k].0 as int, ot@[k].1 as int),
            forall|k: int| 0 <= k < et@.len() ==> is_token(ec@, #[trigger] et@[k].0 as int, et@[k].1 as int),
            forall|k: int, l: int|
                0 <= k < i && 0 <= l < et@.len() ==> !(#[trigger] oc@.subrange(
                    ot@[k].0 as int,
                    ot@[k].1 as int,
                ) == #[trigger] ec@.subrange(et@[l].0 as int, et@[l].1 as int) && byte_len(
                    oc@.subrange(ot@[k].0 as int, ot@[k].1 as int),
                ) >= 4),
        decreases ot@.len() - i,
    {
        let (a, b) = ot[i];
        assert(is_token(oc@, ot@[i as int].0 as int, ot@[i as int].1 as int));
        if is_long(&oc, a, b) {
            let mut j: usize = 0;
            while j < et.len()
                invariant
                    i < ot@.len(),
                    (a, b) == ot@[i as int],
                    a <= b <= oc@.len(),
                    oc@ == o@,
                    ec@ == e@,
                    is_token(oc@, a as int, b as int),
                    byte_len(oc@.subrange(a as int, b as int)) >= 4,
                    j <= et@.len(),
                    forall|k: int| 0 <= k < et@.len() ==> is_token(ec@, #[trigger] et@[k].0 as int, et@[k].1 as int),
                    forall|l: int|
                        0 <= l < j ==> oc@.subrange(a as int, b as int) != #[trigger] ec@.subrange(
                            et@[l].0 as int,
                            et@[l].1 as int,
                        ),
                decreases et@.len() - j,
            {
                let (c, d) = et[j];
                assert(is_token(ec@, et@[j as int].0 as int, et@[j as int].1 as int));
                if same_run(&oc, a, b, &ec, c, d) {
                    assert(is_token(oc@, a as int, b as int) && is_token(ec@, c as int, d as int));
                    return true;
                }
                j = j + 1;
            }
        }
        i = i + 1;
    }
    assert(!shares_long_token(o@, e@)) by {
        if shares_long_token(o@, e@) {
            let (a, b, c, d) = choose|a: int, b: int, c: int, d: int|
                #[trigger] is_token(o@, a, b) && #[trigger] is_token(e@, c, d) && o@.subrange(a, b)
                    == e@.subrange(c, d) && byte_len(o@.subrange(a, b)) >= 4;
            let k = choose|k: int| 0 <= k < ot@.len() && #[trigger] ot@[k] == (a as usize, b as usize);
            let l = choose|l: int| 0 <= l < et@.len() && #[trigger] et@[l] == (c as usize, d as usize);
            assert(oc@.subrange(ot@[k].0 as int, ot@[k].1 as int) == ec@.subrange(
                et@[l].0 as int,
                et@[l].1 as int,
            ));
        }
    }
    false
}

/// Case-insensitive fuzzy match of an outcome label against a team name.
/// Empty inputs never match.
pub fn fuzzy_match(outcome: &str, espn_name: &str) -> (r: bool)
    ensures
        r == fuzzy_spec(outcome@, espn_name@),
{
    if outcome.is_empty() || espn_name.is_empty() {
        return false;
    }
    let o = lowercase(outcome);
    let e = lowercase(espn_name);
    fuzzy_match_folded(o.as_str(), e.as_str())
}

/// Fuzzy matching does not depend on the order of its arguments.
pub proof fn fuzzy_match_symmetric(a: Seq<char>, b: Seq<char>)
    ensures
        fuzzy_spec(a, b) == fuzzy_spec(b, a),
{
    let x = lower_of(a);
    let y = lower_of(b);
    if shares_long_token(x, y) {
        let (p, q, r, s) = choose|p: int, q: int, r: int, s: int|
            #[trigger] is_token(x, p, q) && #[trigger] is_token(y, r, s) && x.subrange(p, q)
                == y.subrange(r, s) && byte_len(x.subrange(p, q)) >= 4;
        assert(is_token(y, r, s) && is_token(x, p, q));
    }
    if shares_long_token(y, x) {
        let (p, q, r, s) = choose|p: int, q: int, r: int, s: int|
            #[trigger] is_token(y, p, q) && #[trigger] is_token(x, r, s) && y.subrange(p, q)
                == x.subrange(r, s) && byte_len(y.subrange(p, q)) >= 4;
        assert(is_token(x, r, s) && is_token(y, p, q));
    }
}


/// Least `i < n` with `p(i)`, or `-1` when there is none.
pub open spec fn first_where(n: nat, p: spec_fn(int) -> bool) -> int
    decreases n,
{
    if n == 0 {
        -1
    } else {
        let f = first_where((n - 1) as nat, p);
        if f >= 0 {
            f
        } else if p(n - 1) {
            n - 1
        } else {
            -1
        }
    }
}

/// A label that names the draw, in either language the markets use.
pub open spec fn is_draw_label(l: Seq<char>) -> bool {
    lower_of(l) == "draw"@ || lower_of(l) == "ничья"@
}

pub open spec fn draw_pred(outs: Seq<String>) -> spec_fn(int) -> bool {
    |i: int| is_draw_label(outs[i]@)
}

pub open spec fn same_label_pred(outs: Seq<String>, i: int) -> spec_fn(int) -> bool {
    |j: int| outs[j]@ == outs[i]@
}

/// In a three-way market: a label, not the draw slot, that matches `name`.
pub open spec fn team3_pred(outs: Seq<String>, name: Seq<char>) -> spec_fn(int) -> bool {
    |i: int|
        first_where(outs.len(), same_label_pred(outs, i)) != first_where(3, draw_pred(outs))
            && fuzzy_spec(outs[i]@, name)
}

pub open spec fn team_pred(outs: Seq<String>, name: Seq<char>) -> spec_fn(int) -> bool {
    |i: int| fuzzy_spec(outs[i]@, name)
}

/// Reason given by the head-to-head rule for the outcome index `idx`.
pub open spec fn head_to_head_reason(outs: Seq<String>, home: i32, away: i32, idx: int, r: Reason) -> bool {
    if outs.len() == 3 {
        if home > away {
            r == (Reason::Wins { label: outs[idx], first: home, second: away })
        } else if home < away {
            r == (Reason::Wins { label: outs[idx], first: away, second: home })
        } else if idx >= 0 {
            r == (Reason::Draw { home, away })
        } else {
            r == (Reason::DrawWithoutSlot { home, away })
        }
    } else if outs.len() == 2 {
        if home != away {
            r == (Reason::Wins { label: outs[idx], first: home, second: away })
        } else {
            r == (Reason::TieInTwoWay { home, away })
        }
    } else {
        r == Reason::BadOutcomeCount
    }
}

/// Reason given by the threshold-total rule for the outcome index `idx`.
pub open spec fn threshold_reason(home: i32, away: i32, idx: int, r: Reason) -> bool {
    r matches Reason::Total { total, over, home: h, away: a, .. } && total == home + away && over
        == (idx == 0) && h == home && a == away
}

/// Reason given by the boolean-proposition rule for the outcome index `idx`.
pub open spec fn both_score_reason(home: i32, away: i32, idx: int, r: Reason) -> bool {
    if idx == 0 {
        r == (Reason::BothScored { home, away })
    } else {
        r == (Reason::NotBothScored { home, away })
    }
}

/// Head-to-head rule: index of the winning outcome, or `-1`.
pub open spec fn head_to_head_index(
    outs: Seq<String>,
    home: int,
    away: int,
    home_name: Seq<char>,
    away_name: Seq<char>,
) -> int {
    if outs.len() == 3 {
        let d = first_where(3, draw_pred(outs));
        let h = first_where(3, team3_pred(outs, home_name));
        let a = first_where(3, team3_pred(outs, away_name));
        let first_free: int = if d == 0 { 1 } else { 0 };
        let second_free: int = if d == 0 || d == 1 { 2 } else { 1 };
        if home > away {
            if h >= 0 { h } else { first_free }
        } else if home < away {
            if a >= 0 { a } else { second_free }
        } else {
            d
        }
    } else if outs.len() == 2 {
        let h = first_where(2, team_pred(outs, home_name));
        let a = first_where(2, team_pred(outs, away_name));
        if home > away {
            if h >= 0 { h } else { 0 }
        } else if home < away {
            if a >= 0 { a } else { 1 }
        } else {
            -1
        }
    } else {
        -1
    }
}

fn draw_slot(outcomes: &[String]) -> (r: i32)
    requires
        outcomes@.len() == 3,
    ensures
        r == first_where(3, draw_pred(outcomes@)),
        -1 <= r < 3,
{
    let mut i: usize = 0;
    let mut found: i32 = -1;
    while i < 3
        invariant
            outcomes@.len() == 3,
            i <= 3,
            found == first_where(i as nat, draw_pred(outcomes@)),
            -1 <= found < i,
        decreases 3 - i,
    {
        if found < 0 {
            let l = lowercase(outcomes[i].as_str());
            if str_eq(l.as_str(), "draw") || str_eq(l.as_str(), "ничья") {
                found = i as i32;
            }
        }
        i = i + 1;
    }
    found
}

fn first_same_label(outcomes: &[String], i: usize) -> (r: usize)
    requires
        i < outcomes@.len(),
    ensures
        r as int == first_where(outcomes@.len(), same_label_pred(outcomes@, i as int)),
        r <= i,
{
    let mut j: usize = 0;
    while j < i
        invariant
            i < outcomes@.len(),
            j <= i,
            first_where(j as nat, same_label_pred(outcomes@, i as int)) == -1,
        decreases i - j,
    {
        if outcomes[j] == outcomes[i] {
            proof {
                lemma_first_where_stable(j as nat + 1, outcomes@.len(), same_label_pred(outcomes@, i as int));
            }
            return j;
        }
        j = j + 1;
    }
    proof {
        lemma_first_where_stable(i as nat + 1, outcomes@.len(), same_label_pred(outcomes@, i as int));
    }
    i
}

/// Once found among the first `m`, the first index stays the same for any larger bound.
pub proof fn lemma_first_where_stable(m: nat, n: nat, p: spec_fn(int) -> bool)
    requires
        m <= n,
        first_where(m, p) >= 0,
    ensures
        first_where(n, p) == first_where(m, p),
    decreases n - m,
{
    if n > m {
        lemma_first_where_stable(m, (n - 1) as nat, p);
    }
}

fn team_slot3(outcomes: &[String], name: &str, draw: i32) -> (r: i32)
    requires
        outcomes@.len() == 3,
        draw == first_where(3, draw_pred(outcomes@)),
    ensures
        r == first_where(3, team3_pred(outcomes@, name@)),
        -1 <= r < 3,
{
    let mut i: usize = 0;
    let mut found: i32 = -1;
    while i < 3
        invariant
            outcomes@.len() == 3,
            draw == first_where(3, draw_pred(outcomes@)),
            i <= 3,
            found == first_where(i as nat, team3_pred(outcomes@, name@)),
            -1 <= found < i,
        decreases 3 - i,
    {
        if found < 0 {
            let first = first_same_label(outcomes, i);
            if first as i32 != draw && fuzzy_match(outcomes[i].as_str(), name) {
                found = i as i32;
            }
        }
        i = i + 1;
    }
    found
}

fn team_slot2(outcomes: &[String], name: &str) -> (r: i32)
    requires
        outcomes@.len() == 2,
    ensures
        r == first_where(2, team_pred(outcomes@, name@)),
        -1 <= r < 2,
{
    reveal_with_fuel(first_where, 3);
    if fuzzy_match(outcomes[0].as_str(), name) {
        0
    } else if fuzzy_match(outcomes[1].as_str(), name) {
        1
    } else {
        -1
    }
}

/// Head-to-head rule. Three outcomes: a draw slot (a label equal to "draw"
/// in any case) and two team slots found by fuzzy matching, falling back to
/// the non-draw slots in order. Two outcomes: team slots by matching, falling
/// back to 0 = home, 1 = away; a tie is indeterminate. Other counts are
/// indeterminate.
pub fn resolve_winner(
    outcomes: &[String],
    home: i32,
    away: i32,
    home_name: &str,
    away_name: &str,
) -> (r: (i32, Reason))
    ensures
        r.0 == head_to_head_index(outcomes@, home as int, away as int, home_name@, away_name@),
        -1 <= r.0 < outcomes@.len(),
        head_to_head_reason(outcomes@, home, away, r.0 as int, r.1),
{
    if outcomes.len() == 3 {
        let d = draw_slot(outcomes);
        let h = team_slot3(outcomes, home_name, d);
        let a = team_slot3(outcomes, away_name, d);
        let first_free: i32 = if d == 0 { 1 } else { 0 };
        let second_free: i32 = if d == 0 || d == 1 { 2 } else { 1 };
        if home > away {
            let hi = if h >= 0 { h } else { first_free };
            (hi, Reason::Wins { label: outcomes[hi as usize].clone(), first: home, second: away })
        } else if home < away {
            let ai = if a >= 0 { a } else { second_free };
            (ai, Reason::Wins { label: outcomes[ai as usize].clone(), first: away, second: home })
        } else if d >= 0 {
            (d, Reason::Draw { home, away })
        } else {
            (-1, Reason::DrawWithoutSlot { home, away })
        }
    } else if outcomes.len() == 2 {
        let h = team_slot2(outcomes, home_name);
        let a = team_slot2(outcomes, away_name);
        if home > away {
            let hi = if h >= 0 { h } else { 0 };
            (hi, Reason::Wins { label: outcomes[hi as usize].clone(), first: home, second: away })
        } else if home < away {
            let ai = if a >= 0 { a } else { 1 };
            (ai, Reason::Wins { label: outcomes[ai as usize].clone(), first: home, second: away })
        } else {
            (-1, Reason::TieInTwoWay { home, away })
        }
    } else {
        (-1, Reason::BadOutcomeCount)
    }
}

/// Boolean-proposition rule: slot 0 when both scores are positive, else slot 1.
pub fn resolve_both_score(home: i32, away: i32) -> (r: (i32, Reason))
    ensures
        r.0 == (if home > 0 && away > 0 { 0int } else { 1int }),
        both_score_reason(home, away, r.0 as int, r.1),
{
    if home > 0 && away > 0 {
        (0, Reason::BothScored { home, away })
    } else {
        (1, Reason::NotBothScored { home, away })
    }
}


/// `s[a..b]` is the leftmost token of `s` that reads as a decimal number.
pub open spec fn first_decimal_token(s: Seq<char>, a: int, b: int) -> bool {
    &&& is_token(s, a, b)
    &&& is_decimal(s.subrange(a, b))
    &&& forall|c: int, d: int|
        #[trigger] is_token(s, c, d) && is_decimal(s.subrange(c, d)) ==> a <= c
}

/// Floor of the threshold named in a label: its leftmost decimal token, or
/// 2.5 when there is none.
pub open spec fn threshold_floor(label: Seq<char>) -> int {
    if exists|a: int, b: int| #[trigger] first_decimal_token(label, a, b) {
        let (a, b) = choose|a: int, b: int| #[trigger] first_decimal_token(label, a, b);
        decimal_floor(label.subrange(a, b))
    } else {
        2
    }
}

/// Threshold-total rule: slot 0 when the total score is above the threshold
/// read from the first outcome label, else slot 1.
pub open spec fn threshold_index(outs: Seq<String>, home: int, away: int) -> int {
    let f = if outs.len() > 0 { threshold_floor(outs[0]@) } else { 2 };
    if home + away > f { 0 } else { 1 }
}

proof fn lemma_token_end_unique(s: Seq<char>, a: int, b: int, c: int)
    requires
        is_token(s, a, b),
        is_token(s, a, c),
    ensures
        b == c,
{
    if b < c {
        assert(!crate::text::is_space(s[b]));
    } else if c < b {
        assert(!crate::text::is_space(s[c]));
    }
}

/// Threshold-total rule. The threshold is the first whitespace-separated
/// token of the first label that reads as a decimal number, 2.5 if none does.
pub fn resolve_over_under(outcomes: &[String], home: i32, away: i32) -> (r: (i32, Reason))
    ensures
        r.0 == threshold_index(outcomes@, home as int, away as int),
        threshold_reason(home, away, r.0 as int, r.1),
{
    let total = home as i64 + away as i64;
    let mut floor: i64 = 2;
    let mut threshold: Option<String> = None;
    if outcomes.len() > 0 {
        let label = outcomes[0].as_str();
        let c = chars_of(label);
        let spans = token_spans(&c);
        let mut k: usize = 0;
        let mut found = false;
        while k < spans.len() && !found
            invariant
                outcomes@.len() > 0,
                c@ == outcomes@[0]@,
                label@ == c@,
                k <= spans@.len(),
                forall|j: int| 0 <= j < spans@.len() ==> is_token(c@, #[trigger] spans@[j].0 as int, spans@[j].1 as int),
                forall|j: int, l: int| 0 <= j < l < spans@.len() ==> #[trigger] spans@[j].1 < #[trigger] spans@[l].0,
                forall|a: int, b: int|
                    #[trigger] is_token(c@, a, b) ==> exists|j: int|
                        0 <= j < spans@.len() && #[trigger] spans@[j] == (a as usize, b as usize),
                !found ==> floor == 2,
                !found ==> forall|j: int| 0 <= j < k ==> !is_decimal(#[trigger] c@.subrange(spans@[j].0 as int, spans@[j].1 as int)),
                found ==> k > 0 && first_decimal_token(c@, spans@[k - 1].0 as int, spans@[k - 1].1 as int),
                found ==> {
                    let f = decimal_floor(c@.subrange(spans@[k - 1].0 as int, spans@[k - 1].1 as int));
                    if -(THRESHOLD_CAP as int) < f < THRESHOLD_CAP as int {
                        floor == f
                    } else if f > 0 {
                        floor >= THRESHOLD_CAP
                    } else {
                        floor <= -(THRESHOLD_CAP as int)
                    }
                },
            decreases spans@.len() - k,
        {
            let (a, b) = spans[k];
            assert(is_token(c@, spans@[k as int].0 as int, spans@[k as int].1 as int));
            match decimal_floor_of(&c, a, b) {
                Some(v) => {
                    floor = v;
                    found = true;
                    threshold = Some(label.substring_char(a, b).to_owned());
                    assert forall|x: int, y: int|
                        #[trigger] is_token(c@, x, y) && is_decimal(c@.subrange(x, y)) implies a <= x by {
                        let j = choose|j: int| 0 <= j < spans@.len() && #[trigger] spans@[j] == (x as usize, y as usize);
                        if j < k {
                            assert(!is_decimal(c@.subrange(spans@[j].0 as int, spans@[j].1 as int)));
                        } else if j > k {
                            assert(spans@[k as int].1 < spans@[j].0);
                        }
                    }
                },
                None => {},
            }
            k = k + 1;
        }
        proof {
            let s = c@;
            if found {
                let (a, b) = (spans@[k - 1].0 as int, spans@[k - 1].1 as int);
                assert(first_decimal_token(s, a, b));
                let (x, y) = choose|x: int, y: int| #[trigger] first_decimal_token(s, x, y);
                assert(a <= x && x <= a);
                lemma_token_end_unique(s, a, b, y);
            } else {
                assert forall|x: int, y: int| !#[trigger] first_decimal_token(s, x, y) by {
                    if is_token(s, x, y) {
                        let j = choose|j: int| 0 <= j < spans@.len() && #[trigger] spans@[j] == (x as usize, y as usize);
                        assert(!is_decimal(s.subrange(spans@[j].0 as int, spans@[j].1 as int)));
                    }
                }
            }
        }
    }
    let over = total > floor;
    (if over { 0 } else { 1 }, Reason::Total { total, over, threshold, home, away })
}

} // verus!
