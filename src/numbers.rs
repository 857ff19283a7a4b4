//! Decimal number syntax: unsigned and signed integers, and decimal thresholds.
use crate::matcher::first_where;
use vstd::prelude::*;

verus! {

pub open spec fn is_digit(c: char) -> bool {
    '0' <= c <= '9'
}

pub open spec fn all_digits(s: Seq<char>) -> bool {
    forall|k: int| 0 <= k < s.len() ==> is_digit(#[trigger] s[k])
}

/// Value of a run of decimal digits.
pub open spec fn digits_value(s: Seq<char>) -> nat
    decreases s.len(),
{
    if s.len() == 0 {
        0
    } else {
        10 * digits_value(s.drop_last()) + (s.last() as nat - '0' as nat) as nat
    }
}

pub open spec fn min_int(a: int, b: int) -> int {
    if a <= b { a } else { b }
}

/// The digits of `s[a..b]` read as a number and capped at `cap`, or `None`
/// when some character there is not a digit.
pub fn digit_run_value(s: &Vec<char>, a: usize, b: usize, cap: u128) -> (r: Option<u128>)
    requires
        a <= b <= s@.len(),
        cap <= 0x1_0000_0000_0000_0000_0000,
    ensures
        r is Some <==> all_digits(s@.subrange(a as int, b as int)),
        r matches Some(v) ==> v == min_int(digits_value(s@.subrange(a as int, b as int)) as int, cap as int),
{
    let mut v: u128 = 0;
    let mut k: usize = a;
    while k < b
        invariant
            a <= k <= b <= s@.len(),
            cap <= 0x1_0000_0000_0000_0000_0000,
            all_digits(s@.subrange(a as int, k as int)),
            v == min_int(digits_value(s@.subrange(a as int, k as int)) as int, cap as int),
        decreases b - k,
    {
        let c = s[k];
        if !('0' <= c && c <= '9') {
            assert(s@.subrange(a as int, b as int)[k - a] == c);
            return None;
        }
        let d = (c as u32 - '0' as u32) as u128;
        assert(s@.subrange(a as int, k + 1).drop_last() == s@.subrange(a as int, k as int));
        assert(s@.subrange(a as int, k + 1).last() == c);
        v = if v >= cap { cap } else if 10 * v + d >= cap { cap } else { 10 * v + d };
        k = k + 1;
    }
    Some(v)
}

/// Text of an unsigned integer as `str::parse` reads it: an optional `+`,
/// then one or more digits.
pub open spec fn unsigned_value(s: Seq<char>) -> Option<int> {
    let body = if s.len() > 0 && s[0] == '+' { s.drop_first() } else { s };
    if body.len() > 0 && all_digits(body) {
        Some(digits_value(body) as int)
    } else {
        None
    }
}

/// Text of a signed integer: an optional sign, then one or more digits.
pub open spec fn signed_value(s: Seq<char>) -> Option<int> {
    if s.len() > 0 && s[0] == '-' {
        match unsigned_value(s.drop_first()) {
            Some(v) => if s.len() > 1 && s[1] != '+' { Some(-v) } else { None },
            None => None,
        }
    } else {
        unsigned_value(s)
    }
}

/// `s.parse::<u64>()`.
pub fn parse_u64(s: &str) -> (r: Option<u64>)
    ensures
        r == (match unsigned_value(s@) {
            Some(v) => if v <= u64::MAX { Some(v as u64) } else { None },
            None => None,
        }),
{
    let c = crate::text::chars_of(s);
    let n = c.len();
    let start: usize = if n > 0 && c[0] == '+' { 1 } else { 0 };
    assert(c@.subrange(start as int, n as int) == (if s@.len() > 0 && s@[0] == '+' {
        s@.drop_first()
    } else {
        s@
    }));
    if start == n {
        return None;
    }
    match digit_run_value(&c, start, n, 0x1_0000_0000_0000_0000) {
        Some(v) => if v <= u64::MAX as u128 { Some(v as u64) } else { None },
        None => None,
    }
}

/// `s.parse::<i32>()`.
pub fn parse_i32(s: &str) -> (r: Option<i32>)
    ensures
        r == (match signed_value(s@) {
            Some(v) => if i32::MIN <= v <= i32::MAX { Some(v as i32) } else { None },
            None => None,
        }),
{
    let c = crate::text::chars_of(s);
    let n = c.len();
    let neg = n > 0 && c[0] == '-';
    let start: usize = if n > 0 && (c[0] == '+' || c[0] == '-') { 1 } else { 0 };
    if start == n {
        return None;
    }
    if neg {
        assert(s@.drop_first() == c@.subrange(1, n as int));
        if c[1] == '+' {
            return None;
        }
        assert(!(s@.drop_first().len() > 0 && s@.drop_first()[0] == '+'));
    } else {
        assert(c@.subrange(start as int, n as int) == (if s@.len() > 0 && s@[0] == '+' {
            s@.drop_first()
        } else {
            s@
        }));
    }
    match digit_run_value(&c, start, n, 0x1_0000_0000) {
        Some(v) => {
            if neg {
                if v <= 0x8000_0000 {
                    Some((0 - v as i64) as i32)
                } else {
                    None
                }
            } else if v <= 0x7fff_ffff {
                Some(v as i32)
            } else {
                None
            }
        },
        None => None,
    }
}

pub open spec fn dot_pred(t: Seq<char>) -> spec_fn(int) -> bool {
    |k: int| t[k] == '.'
}

pub open spec fn sign_len(t: Seq<char>) -> int {
    if t.len() > 0 && (t[0] == '+' || t[0] == '-') { 1 } else { 0 }
}

/// Integer and fraction digits of a decimal token, sign and point removed.
pub open spec fn decimal_parts(t: Seq<char>) -> (Seq<char>, Seq<char>) {
    let d = first_where(t.len(), dot_pred(t));
    if d < 0 {
        (t.subrange(sign_len(t), t.len() as int), Seq::empty())
    } else {
        (t.subrange(sign_len(t), d), t.subrange(d + 1, t.len() as int))
    }
}

/// A plain decimal number: optional sign, digits, optional point and digits,
/// with at least one digit.
pub open spec fn is_decimal(t: Seq<char>) -> bool {
    let (ip, fp) = decimal_parts(t);
    all_digits(ip) && all_digits(fp) && ip.len() + fp.len() > 0
}

/// The greatest integer not above the decimal number `t`.
pub open spec fn decimal_floor(t: Seq<char>) -> int {
    let (ip, fp) = decimal_parts(t);
    let i = digits_value(ip) as int;
    let neg = sign_len(t) == 1 && t[0] == '-';
    let frac = exists|k: int| 0 <= k < fp.len() && #[trigger] fp[k] != '0';
    if neg && frac {
        -i - 1
    } else if neg {
        -i
    } else {
        i
    }
}

/// Bound past which the integer part of a threshold is not told apart.
pub const THRESHOLD_CAP: u128 = 0x100_0000_0000;

/// Reads `s[a..b]` as a decimal number; on success gives the floor, with an
/// integer part capped at `THRESHOLD_CAP`.
pub fn decimal_floor_of(s: &Vec<char>, a: usize, b: usize) -> (r: Option<i64>)
    requires
        a <= b <= s@.len(),
    ensures
        r is Some <==> is_decimal(s@.subrange(a as int, b as int)),
        r matches Some(v) ==> {
            let f = decimal_floor(s@.subrange(a as int, b as int));
            if -(THRESHOLD_CAP as int) < f < THRESHOLD_CAP as int {
                v == f
            } else if f > 0 {
                v >= THRESHOLD_CAP
            } else {
                v <= -(THRESHOLD_CAP as int)
            }
        },
{
    let ghost t = s@.subrange(a as int, b as int);
    let neg = a < b && s[a] == '-';
    let start: usize = if a < b && (s[a] == '+' || s[a] == '-') { a + 1 } else { a };
    assert(start - a == sign_len(t));
    proof {
        reveal_with_fuel(first_where, 2);
    }
    let mut dot: usize = start;
    while dot < b && s[dot] != '.'
        invariant
            a <= start <= dot <= b <= s@.len(),
            t == s@.subrange(a as int, b as int),
            start - a == sign_len(t),
            forall|k: int| start <= k < dot ==> s@[k] != '.',
            first_where((start - a) as nat, dot_pred(t)) == -1,
        decreases b - dot,
    {
        dot = dot + 1;
    }
    proof {
        lemma_no_dot_before(t, (start - a) as nat, (dot - a) as nat);
    }
    let found = dot < b;
    proof {
        if found {
            lemma_first_dot(t, (dot - a) as nat);
        }
    }
    let int_part = digit_run_value(s, start, dot, THRESHOLD_CAP);
    let frac_start: usize = if found { dot + 1 } else { b };
    assert(s@.subrange(start as int, dot as int) == decimal_parts(t).0);
    assert(s@.subrange(frac_start as int, b as int) =~= decimal_parts(t).1);
    let mut frac_nonzero = false;
    let mut k: usize = frac_start;
    while k < b
        invariant
            frac_start <= k <= b <= s@.len(),
            frac_nonzero == exists|j: int| frac_start <= j < k && #[trigger] s@[j] != '0',
        decreases b - k,
    {
        if s[k] != '0' {
            frac_nonzero = true;
        }
        k = k + 1;
    }
    let frac_ok = match digit_run_value(s, frac_start, b, 0) {
        Some(_) => true,
        None => false,
    };
    proof {
        let fp = decimal_parts(t).1;
        if frac_nonzero {
            let j = choose|j: int| frac_start <= j < b && #[trigger] s@[j] != '0';
            assert(fp[j - frac_start] != '0');
        }
        if exists|j: int| 0 <= j < fp.len() && #[trigger] fp[j] != '0' {
            let j = choose|j: int| 0 <= j < fp.len() && #[trigger] fp[j] != '0';
            assert(s@[frac_start + j] != '0');
        }
    }
    match int_part {
        Some(v) => {
            if !frac_ok || (dot - start) + (b - frac_start) == 0 {
                return None;
            }
            let w = v as i64;
            if neg && frac_nonzero {
                Some(-w - 1)
            } else if neg {
                Some(-w)
            } else {
                Some(w)
            }
        },
        None => None,
    }
}

proof fn lemma_no_dot_before(t: Seq<char>, from: nat, to: nat)
    requires
        from <= to <= t.len(),
        first_where(from, dot_pred(t)) == -1,
        forall|k: int| from <= k < to ==> t[k] != '.',
    ensures
        first_where(to, dot_pred(t)) == -1,
    decreases to - from,
{
    if to > from {
        lemma_no_dot_before(t, from, (to - 1) as nat);
    }
}

proof fn lemma_first_dot(t: Seq<char>, d: nat)
    requires
        d < t.len(),
        t[d as int] == '.',
        first_where(d, dot_pred(t)) == -1,
    ensures
        first_where(t.len(), dot_pred(t)) == d,
    decreases t.len() - d,
{
    assert(first_where(d + 1, dot_pred(t)) == d);
    crate::matcher::lemma_first_where_stable(d + 1, t.len(), dot_pred(t));
}

} // verus!
