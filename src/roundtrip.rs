//! Inverting a small, well-conditioned matrix and multiplying back gives the
//! identity within the default tolerance.
use vstd::prelude::*;
use crate::matrix::{cofactor, det2, det_n, is_inverse_of, product_prefix, quotients_fit, sign};
use crate::scalar::{abs, approx_eq_spec, div_raw, fits, mul_raw, tdiv, DEFAULT_ATOL, DEFAULT_RTOL, SCALE};

verus! {

/// `|S * tdiv(n, S) - n| < S`.
proof fn lemma_tdiv_residual(n: int)
    ensures
        abs(SCALE * tdiv(n, SCALE as int) - n) < SCALE,
{
    let s = SCALE as int;
    if n >= 0 {
        assert(0 <= n - s * (n / s) < s) by (nonlinear_arith)
            requires
                n >= 0,
                s > 0,
        ;
    } else {
        assert(0 <= (-n) - s * ((-n) / s) < s) by (nonlinear_arith)
            requires
                -n > 0,
                s > 0,
        ;
    }
}

/// `|div_raw(x, d) * d - x * S| < |d|` for a non-zero `d`.
proof fn lemma_div_raw_residual(x: int, d: int)
    requires
        d != 0,
    ensures
        abs(div_raw(x, d) * d - x * SCALE) < abs(d),
{
    let s = SCALE as int;
    let n = if d > 0 {
        x * s
    } else {
        -(x * s)
    };
    let e = abs(d);
    assert(e > 0);
    let q = div_raw(x, d);
    assert(q == tdiv(n, e));
    if n >= 0 {
        assert(abs(q * e - n) < e) by (nonlinear_arith)
            requires
                n >= 0,
                e > 0,
                q == n / e,
        ;
    } else {
        assert(abs(q * e - n) < e) by (nonlinear_arith)
            requires
                -n > 0,
                e > 0,
                q == -((-n) / e),
        ;
    }
    if d > 0 {
        assert(abs(q * d - x * s) < e) by (nonlinear_arith)
            requires
                abs(q * e - n) < e,
                n == x * s,
                d == e,
        ;
    } else {
        assert(abs(q * d - x * s) < e) by (nonlinear_arith)
            requires
                abs(q * e - n) < e,
                n == -(x * s),
                d == -e,
        ;
    }
}

/// One entry of the product of a matrix and its inverse: factors `p1`,
/// `p2` of at most 4, times the quotients of `x1`, `x2` by `d`, where
/// `p1 x1 + p2 x2 == target * d + r` with `|r| < 2 S`, is within 12 raw
/// units of `target`.
proof fn lemma_round_trip_entry(p1: int, x1: int, p2: int, x2: int, d: int, target: int, r: int)
    requires
        abs(p1) <= 4 * SCALE,
        abs(p2) <= 4 * SCALE,
        abs(d) >= SCALE,
        p1 * x1 + p2 * x2 == target * d + r,
        abs(r) < 2 * SCALE,
    ensures
        abs(mul_raw(p1, div_raw(x1, d)) + mul_raw(p2, div_raw(x2, d)) - target) < 12,
{
    let s = SCALE as int;
    let q1 = div_raw(x1, d);
    let q2 = div_raw(x2, d);
    lemma_div_raw_residual(x1, d);
    lemma_div_raw_residual(x2, d);
    let rho1 = q1 * d - x1 * s;
    let rho2 = q2 * d - x2 * s;
    let xx = p1 * q1 + p2 * q2;
    assert(d * xx == p1 * (q1 * d) + p2 * (q2 * d)) by (nonlinear_arith)
        requires
            xx == p1 * q1 + p2 * q2,
    ;
    assert(p1 * (q1 * d) == p1 * rho1 + s * (p1 * x1)) by (nonlinear_arith)
        requires
            rho1 == q1 * d - x1 * s,
    ;
    assert(p2 * (q2 * d) == p2 * rho2 + s * (p2 * x2)) by (nonlinear_arith)
        requires
            rho2 == q2 * d - x2 * s,
    ;
    assert(s * (p1 * x1) + s * (p2 * x2) == s * (target * d) + s * r) by (nonlinear_arith)
        requires
            p1 * x1 + p2 * x2 == target * d + r,
    ;
    assert(d * (xx - s * target) == d * xx - s * (target * d)) by (nonlinear_arith);
    assert(d * (xx - s * target) == s * r + p1 * rho1 + p2 * rho2);
    assert(abs(p1 * rho1) <= 4 * s * abs(d) && abs(p2 * rho2) <= 4 * s * abs(d)) by (nonlinear_arith)
        requires
            abs(p1) <= 4 * s,
            abs(p2) <= 4 * s,
            abs(rho1) < abs(d),
            abs(rho2) < abs(d),
            s > 0,
    ;
    assert(abs(s * r) < 2 * s * abs(d)) by (nonlinear_arith)
        requires
            abs(r) < 2 * s,
            abs(d) >= s,
            s > 0,
    ;
    let k = s * abs(d);
    assert(2 * s * abs(d) == 2 * k && 4 * s * abs(d) == 4 * k && 10 * s * abs(d) == 10 * k) by (nonlinear_arith)
        requires
            k == s * abs(d),
    ;
    let (t1, t2, t3) = (s * r, p1 * rho1, p2 * rho2);
    assert(abs(t1 + t2 + t3) < 10 * k);
    assert(abs(xx - s * target) < 10 * s) by (nonlinear_arith)
        requires
            abs(d * (xx - s * target)) < 10 * s * abs(d),
            abs(d) >= s,
            s > 0,
    ;
    lemma_tdiv_residual(p1 * q1);
    lemma_tdiv_residual(p2 * q2);
    assert(abs(mul_raw(p1, q1) + mul_raw(p2, q2) - target) < 12) by (nonlinear_arith)
        requires
            abs(s * mul_raw(p1, q1) - p1 * q1) < s,
            abs(s * mul_raw(p2, q2) - p2 * q2) < s,
            xx == p1 * q1 + p2 * q2,
            abs(xx - s * target) < 10 * s,
            s > 0,
    ;
}

/// A 2 by 2 matrix with every entry at most 4 in magnitude and a
/// determinant of at least 1 in magnitude has an inverse, and the product of
/// the matrix with that inverse is the identity to within 12 raw units per
/// entry, so each entry is `approx_eq` to the identity's.
#[verifier::spinoff_prover]
pub proof fn lemma_inverse_round_trip2(m: Seq<Seq<int>>, inv: Seq<Seq<int>>)
    requires
        m.len() == 2,
        m[0].len() == 2,
        m[1].len() == 2,
        forall|i: int, j: int| 0 <= i < 2 && 0 <= j < 2 ==> abs(#[trigger] m[i][j]) <= 4 * SCALE,
        abs(det2(m)) >= SCALE,
        is_inverse_of(inv, m, 2),
    ensures
        fits(det2(m)),
        det2(m) != 0,
        quotients_fit(m, 2),
        forall|i: int, j: int|
            0 <= i < 2 && 0 <= j < 2 ==> abs(#[trigger] product_prefix(m, inv, i, j, 2) - if i == j {
                SCALE as int
            } else {
                0
            }) < 12,
        forall|i: int, j: int|
            0 <= i < 2 && 0 <= j < 2 ==> approx_eq_spec(
                #[trigger] product_prefix(m, inv, i, j, 2),
                if i == j {
                    SCALE as int
                } else {
                    0
                },
                DEFAULT_ATOL as int,
                DEFAULT_RTOL as int,
            ),
{
    let s = SCALE as int;
    let (a, b, c, e) = (m[0][0], m[0][1], m[1][0], m[1][1]);
    assert(abs(a) <= 4 * s && abs(b) <= 4 * s && abs(c) <= 4 * s && abs(e) <= 4 * s);
    let d = det2(m);
    lemma_tdiv_residual(a * e);
    lemma_tdiv_residual(b * c);
    assert(abs(a * e) <= 16 * s * s && abs(b * c) <= 16 * s * s) by (nonlinear_arith)
        requires
            abs(a) <= 4 * s,
            abs(b) <= 4 * s,
            abs(c) <= 4 * s,
            abs(e) <= 4 * s,
            s > 0,
    ;
    assert(fits(d)) by (nonlinear_arith)
        requires
            abs(a) <= 4 * s,
            abs(b) <= 4 * s,
            abs(c) <= 4 * s,
            abs(e) <= 4 * s,
            d == crate::scalar::tdiv(a * e, s) - crate::scalar::tdiv(b * c, s),
            s == 1_000_000_000,
            abs(s * crate::scalar::tdiv(a * e, s) - a * e) < s,
            abs(s * crate::scalar::tdiv(b * c, s) - b * c) < s,
            abs(a * e) <= 16 * s * s,
            abs(b * c) <= 16 * s * s,
    ;
    assert(sign(0, 0) == 1 && sign(0, 1) == -1 && sign(1, 0) == -1 && sign(1, 1) == 1);
    assert(cofactor(m, 2, 0, 0) == e && cofactor(m, 2, 0, 1) == -c);
    assert(cofactor(m, 2, 1, 0) == -b && cofactor(m, 2, 1, 1) == a);
    assert(det_n(m, 2) == d);
    // The inverse's entries are in range.
    assert forall|i: int, j: int| 0 <= i < 2 && 0 <= j < 2 implies fits(
        #[trigger] div_raw(cofactor(m, 2, j, i), det_n(m, 2)),
    ) by {
        let x = cofactor(m, 2, j, i);
        assert(abs(x) <= 4 * s);
        lemma_div_raw_residual(x, d);
        let q = div_raw(x, d);
        assert(abs(q) <= 4 * s + 1) by (nonlinear_arith)
            requires
                abs(q * d - x * s) < abs(d),
                abs(x) <= 4 * s,
                abs(d) >= s,
                s > 0,
        ;
    }
    // The determinant against the exact products.
    let r = a * e - b * c - s * d;
    assert(abs(r) < 2 * s);
    reveal_with_fuel(product_prefix, 3);
    assert(inv[0][0] == div_raw(e, d) && inv[1][0] == div_raw(-c, d));
    assert(inv[0][1] == div_raw(-b, d) && inv[1][1] == div_raw(a, d));
    assert(a * e + b * (-c) == s * d + r) by (nonlinear_arith)
        requires
            r == a * e - b * c - s * d,
    ;
    assert(c * (-b) + e * a == s * d + r) by (nonlinear_arith)
        requires
            r == a * e - b * c - s * d,
    ;
    assert(a * (-b) + b * a == 0 * d + 0) by (nonlinear_arith);
    assert(c * e + e * (-c) == 0 * d + 0) by (nonlinear_arith);
    lemma_round_trip_entry(a, e, b, -c, d, s, r);
    lemma_round_trip_entry(a, -b, b, a, d, 0, 0);
    lemma_round_trip_entry(c, e, e, -c, d, 0, 0);
    lemma_round_trip_entry(c, -b, e, a, d, s, r);
    assert(product_prefix(m, inv, 0, 0, 2) == mul_raw(a, inv[0][0]) + mul_raw(b, inv[1][0]));
    assert(product_prefix(m, inv, 0, 1, 2) == mul_raw(a, inv[0][1]) + mul_raw(b, inv[1][1]));
    assert(product_prefix(m, inv, 1, 0, 2) == mul_raw(c, inv[0][0]) + mul_raw(e, inv[1][0]));
    assert(product_prefix(m, inv, 1, 1, 2) == mul_raw(c, inv[0][1]) + mul_raw(e, inv[1][1]));
    assert(mul_raw(DEFAULT_RTOL as int, s) >= 0);
}

} // verus!
