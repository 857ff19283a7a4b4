//! Overflow-free proportional arithmetic on 128-bit amounts.
use vstd::arithmetic::div_mod::{
    lemma_fundamental_div_mod, lemma_fundamental_div_mod_converse_div,
};
use vstd::prelude::*;

verus! {

/// Quotient and remainder of `x * y` by `c`, for `x, y < c`, without ever
/// forming the full product: doubles and adds modulo `c`, one bit of `y` at a time.
fn mul_div_rem(x: u128, y: u128, c: u128) -> (r: (u128, u128))
    requires
        x < c,
        y < c,
    ensures
        r.0 as int * c as int + r.1 as int == x as int * y as int,
        r.1 < c,
    decreases y,
{
    if y == 0 {
        assert(x as int * 0 == 0) by (nonlinear_arith);
        return (0, 0);
    }
    let half = y / 2;
    let (q, m) = mul_div_rem(x, half, c);
    let ghost xi = x as int;
    let ghost ci = c as int;
    let ghost yi = y as int;
    let ghost hi = half as int;
    // q * c <= x * half < c * half, so q < half and the doubling below fits.
    assert(q as int * ci <= xi * hi);
    assert(xi * hi <= ci * hi) by (nonlinear_arith)
        requires xi < ci, hi >= 0;
    if q >= half {
        assert(q as int * ci >= hi * ci) by (nonlinear_arith)
            requires q as int >= hi, ci >= 0;
        if half > 0 {
            assert(xi * hi < ci * hi) by (nonlinear_arith)
                requires xi < ci, hi > 0;
        } else if q > 0 {
            assert(q as int * ci >= ci) by (nonlinear_arith)
                requires q >= 1, ci > 0;
            assert(xi * hi == 0) by (nonlinear_arith) requires hi == 0;
        }
    }
    assert(q < half || q == 0);
    let mut q2: u128 = q * 2;
    let mut m2: u128;
    if m >= c - m {
        q2 = q2 + 1;
        m2 = m - (c - m);
    } else {
        m2 = m + m;
    }
    assert(q2 as int * ci + m2 as int == 2 * (xi * hi)) by (nonlinear_arith)
        requires
            (q2 as int == 2 * q as int + 1 && m2 as int == 2 * m as int - ci)
                || (q2 as int == 2 * q as int && m2 as int == 2 * m as int),
            q as int * ci + m as int == xi * hi;
    if y % 2 == 1 {
        if q2 >= y {
            assert(q2 as int * ci >= yi * ci) by (nonlinear_arith)
                requires q2 as int >= yi, ci >= 0;
            assert(2 * (xi * hi) < yi * ci) by (nonlinear_arith)
                requires xi < ci, yi == 2 * hi + 1, hi >= 0, xi >= 0;
        }
        let ghost q_before = q2 as int;
        let ghost m_before = m2 as int;
        if m2 >= c - x {
            q2 = q2 + 1;
            m2 = m2 - (c - x);
        } else {
            m2 = m2 + x;
        }
        assert(q2 as int * ci + m2 as int == xi * yi) by (nonlinear_arith)
            requires
                yi == 2 * hi + 1,
                q_before * ci + m_before == 2 * (xi * hi),
                (q2 as int == q_before + 1 && m2 as int == m_before + xi - ci)
                    || (q2 as int == q_before && m2 as int == m_before + xi);
    } else {
        assert(q2 as int * ci + m2 as int == xi * yi) by (nonlinear_arith)
            requires yi == 2 * hi, q2 as int * ci + m2 as int == 2 * (xi * hi);
    }
    (q2, m2)
}

/// `floor(x * y / c)` for `x, y < c`.
fn mul_div_below(x: u128, y: u128, c: u128) -> (r: u128)
    requires
        x < c,
        y < c,
    ensures
        r as int == (x as int * y as int) / (c as int),
{
    if y == 0 || x <= u128::MAX / y {
        if y != 0 {
            assert(x as int * y as int <= u128::MAX) by (nonlinear_arith)
                requires x as int <= u128::MAX as int / y as int, y > 0;
        } else {
            assert(x as int * y as int == 0) by (nonlinear_arith) requires y == 0;
        }
        x * y / c
    } else {
        let (q, m) = mul_div_rem(x, y, c);
        proof {
            lemma_fundamental_div_mod_converse_div(
                x as int * y as int,
                c as int,
                q as int,
                m as int,
            );
        }
        q
    }
}

/// `floor(a * b / c)`, computed without overflow whenever the quotient
/// itself fits in 128 bits, however large the product `a * b` is.
///
/// `a * b / c = (a / c) * b + (a % c) * b / c`; where `(a % c) * b` would
/// overflow, `b` is split the same way by `c`.
pub fn safe_mul_div(a: u128, b: u128, c: u128) -> (r: u128)
    requires
        c > 0,
        (a as int * b as int) / (c as int) <= u128::MAX,
    ensures
        r as int == (a as int * b as int) / (c as int),
{
    let ghost ai = a as int;
    let ghost bi = b as int;
    let ghost ci = c as int;
    let qa = a / c;
    let rem = a % c;
    proof {
        lemma_fundamental_div_mod(ai, ci);
        assert(ai * bi == (qa as int * bi) * ci + rem as int * bi) by (nonlinear_arith)
            requires ai == ci * qa as int + rem as int;
        assert(qa as int * bi <= (ai * bi) / ci) by (nonlinear_arith)
            requires
                ai * bi == (qa as int * bi) * ci + rem as int * bi,
                rem >= 0, bi >= 0, ci > 0;
    }
    let whole = qa * b;
    let bm: u128 = if b == 0 { 1 } else { b };
    if rem <= u128::MAX / bm {
        assert(rem as int * bi <= u128::MAX) by (nonlinear_arith)
            requires rem as int <= u128::MAX as int / bm as int, bm > 0, bm == bi || bi == 0;
        let part = rem * b / c;
        proof {
            let t = rem as int * bi;
            lemma_fundamental_div_mod(t, ci);
            assert(ai * bi == (whole as int + part as int) * ci + t % ci) by (nonlinear_arith)
                requires
                    ai * bi == whole as int * ci + t,
                    t == ci * part as int + t % ci;
            lemma_fundamental_div_mod_converse_div(
                ai * bi,
                ci,
                whole as int + part as int,
                t % ci,
            );
        }
        whole + part
    } else {
        let b_div = b / c;
        let b_rem = b % c;
        proof {
            lemma_fundamental_div_mod(bi, ci);
        }
        let low = mul_div_below(rem, b_rem, c);
        proof {
            let t = rem as int * b_rem as int;
            lemma_fundamental_div_mod(t, ci);
            assert(ai * bi == (whole as int + rem as int * b_div as int + low as int) * ci + t
                % ci) by (nonlinear_arith)
                requires
                    ai * bi == whole as int * ci + rem as int * bi,
                    bi == ci * b_div as int + b_rem as int,
                    t == rem as int * b_rem as int,
                    t == ci * low as int + t % ci;
            lemma_fundamental_div_mod_converse_div(
                ai * bi,
                ci,
                whole as int + rem as int * b_div as int + low as int,
                t % ci,
            );
            assert(rem as int * b_div as int >= 0) by (nonlinear_arith)
                requires rem >= 0, b_div >= 0;
        }
        whole + rem * b_div + low
    }
}

} // verus!
