//! Laws of the chord-and-tangent addition that `ecdsa_ecies::point_add`
//! computes, on a curve y^2 = x^3 + a x + b over a prime field: the point
//! at infinity is neutral, the sum does not depend on the order, and the
//! sum of two points of the curve is on the curve.
use vstd::prelude::*;
use crate::bls;
use crate::ecdsa_ecies::{spec_point_add, spec_slope};
use crate::euclid::trem;
use crate::modular::{
    inv_value, spec_inv_strict, lemma_divisible_mul, lemma_divisible_sum, lemma_inv_value_facts, lemma_trem_congruent,
    spec_mod_add, spec_mod_mul, spec_mod_sub, spec_third_point,
};
use crate::primes::{is_prime, lemma_coprime_to_prime, lemma_euclid};

verus! {


/// `u` and `v` are congruent modulo `p`.
pub open spec fn cong(u: int, v: int, p: int) -> bool {
    (u - v) % p == 0
}

/// `pt` is the point at infinity or a point of y^2 = x^3 + a x + b with
/// both coordinates reduced modulo `p`.
pub open spec fn on_curve(pt: Option<(i64, i64)>, a: int, b: int, p: int) -> bool {
    match pt {
        None => true,
        Some((x, y)) => {
            &&& 0 <= x < p
            &&& 0 <= y < p
            &&& cong(y * y, x * x * x + a * x + b, p)
        },
    }
}

proof fn lemma_cong_refl(u: int, p: int)
    requires
        p > 0,
    ensures
        cong(u, u, p),
{
    vstd::arithmetic::div_mod::lemma_small_mod(0, p as nat);
}

proof fn lemma_cong_sym(u: int, v: int, p: int)
    requires
        p > 0,
        cong(u, v, p),
    ensures
        cong(v, u, p),
{
    lemma_divisible_mul(u - v, -1, p);
    assert(-1 * (u - v) == v - u);
}

proof fn lemma_cong_trans(u: int, v: int, w: int, p: int)
    requires
        p > 0,
        cong(u, v, p),
        cong(v, w, p),
    ensures
        cong(u, w, p),
{
    lemma_divisible_sum(u - v, v - w, p);
    assert((u - v) + (v - w) == u - w);
}

proof fn lemma_cong_add(u: int, u2: int, v: int, v2: int, p: int)
    requires
        p > 0,
        cong(u, u2, p),
        cong(v, v2, p),
    ensures
        cong(u + v, u2 + v2, p),
        cong(u - v, u2 - v2, p),
{
    lemma_divisible_sum(u - u2, v - v2, p);
    assert((u - u2) + (v - v2) == (u + v) - (u2 + v2));
    assert((u - u2) - (v - v2) == (u - v) - (u2 - v2));
}

proof fn lemma_cong_mul(u: int, u2: int, v: int, v2: int, p: int)
    requires
        p > 0,
        cong(u, u2, p),
        cong(v, v2, p),
    ensures
        cong(u * v, u2 * v2, p),
{
    lemma_divisible_mul(u - u2, v, p);
    lemma_divisible_mul(v - v2, u2, p);
    lemma_divisible_sum(v * (u - u2), u2 * (v - v2), p);
    assert(v * (u - u2) + u2 * (v - v2) == u * v - u2 * v2) by (nonlinear_arith);
}

/// Two reduced values that are congruent are equal.
proof fn lemma_cong_reduced(u: int, v: int, p: int)
    requires
        p > 0,
        0 <= u < p,
        0 <= v < p,
        cong(u, v, p),
    ensures
        u == v,
{
    if u != v {
        let d = u - v;
        if d > 0 {
            vstd::arithmetic::div_mod::lemma_small_mod(d as nat, p as nat);
        } else {
            vstd::arithmetic::div_mod::lemma_small_mod((-d) as nat, p as nat);
            lemma_divisible_mul(d, -1, p);
        }
    }
}

/// A value congruent to 0 that lies strictly between `-p` and `p` is 0.
proof fn lemma_cong_zero_small(d: int, p: int)
    requires
        p > 0,
        -p < d < p,
        d % p == 0,
    ensures
        d == 0,
{
    if d > 0 {
        vstd::arithmetic::div_mod::lemma_small_mod(d as nat, p as nat);
    } else if d < 0 {
        lemma_divisible_mul(d, -1, p);
        vstd::arithmetic::div_mod::lemma_small_mod((-d) as nat, p as nat);
    }
}

/// On non-negative arguments the three operations are reduced and agree
/// with `+`, `-` and `*` modulo `p`.
proof fn lemma_reduced_ops(u: int, v: int, p: int)
    requires
        p > 0,
        0 <= u,
        0 <= v,
    ensures
        0 <= spec_mod_add(u, v, p) < p,
        cong(spec_mod_add(u, v, p), u + v, p),
        0 <= spec_mod_sub(u, v, p) < p,
        cong(spec_mod_sub(u, v, p), u - v, p),
        0 <= spec_mod_mul(u, v, p) < p,
        cong(spec_mod_mul(u, v, p), u * v, p),
{
    lemma_trem_congruent(u, p);
    lemma_trem_congruent(v, p);
    vstd::arithmetic::div_mod::lemma_mod_bound(u, p);
    vstd::arithmetic::div_mod::lemma_mod_bound(v, p);
    let tu = trem(u, p);
    let tv = trem(v, p);
    lemma_trem_congruent(tu + tv, p);
    vstd::arithmetic::div_mod::lemma_mod_bound(tu + tv, p);
    assert(cong(tu, u, p));
    assert(cong(tv, v, p));
    lemma_cong_add(tu, u, tv, v, p);
    lemma_cong_trans(spec_mod_add(u, v, p), tu + tv, u + v, p);
    lemma_trem_congruent(tu - tv + p, p);
    vstd::arithmetic::div_mod::lemma_mod_bound(tu - tv + p, p);
    assert(cong(p, 0, p)) by {
        vstd::arithmetic::div_mod::lemma_mod_self_0(p);
    }
    lemma_cong_add(tu, u, tv, v, p);
    lemma_cong_add(tu - tv, u - v, p, 0, p);
    lemma_cong_trans(spec_mod_sub(u, v, p), tu - tv + p, u - v, p);
    assert(0 <= tu * v) by (nonlinear_arith)
        requires
            0 <= tu,
            0 <= v,
    ;
    lemma_trem_congruent(tu * v, p);
    vstd::arithmetic::div_mod::lemma_mod_bound(tu * v, p);
    let w = trem(tu * v, p);
    lemma_trem_congruent(w, p);
    vstd::arithmetic::div_mod::lemma_mod_bound(w, p);
    lemma_cong_refl(v, p);
    lemma_cong_mul(tu, u, v, v, p);
    lemma_cong_trans(w, tu * v, u * v, p);
    lemma_cong_trans(spec_mod_mul(u, v, p), w, u * v, p);
}

/// A reduced value that is not 0 has an inverse modulo a prime.
proof fn lemma_prime_inverse(d: int, p: int)
    requires
        is_prime(p as nat),
        0 < d < p,
    ensures
        0 <= inv_value(d, p) < p,
        cong(d * inv_value(d, p), 1, p),
{
    lemma_coprime_to_prime(d as nat, p as nat);
    lemma_trem_congruent(d, p);
    vstd::arithmetic::div_mod::lemma_small_mod(d as nat, p as nat);
    lemma_inv_value_facts(d, p);
    let w = d * inv_value(d, p);
    vstd::arithmetic::div_mod::lemma_fundamental_div_mod(w, p);
    vstd::arithmetic::div_mod::lemma_mod_multiples_basic(w / p, p);
    assert(w - 1 == p * (w / p));
    vstd::arithmetic::mul::lemma_mul_is_commutative(p, w / p);
}

/// `m * d` is congruent to `n` when `m` is `n` times an inverse of `d`.
proof fn lemma_times_inverse(n: int, d: int, inv: int, m: int, p: int)
    requires
        p > 0,
        cong(d * inv, 1, p),
        cong(m, n * inv, p),
    ensures
        cong(m * d, n, p),
{
    lemma_cong_refl(d, p);
    lemma_cong_mul(m, n * inv, d, d, p);
    assert((n * inv) * d == n * (d * inv)) by (nonlinear_arith);
    lemma_cong_refl(n, p);
    lemma_cong_mul(n, n, d * inv, 1, p);
    lemma_cong_trans(m * d, n * (d * inv), n * 1, p);
}

/// The slope `point_add` uses is reduced, and it is the slope of the chord
/// through two points with different x, or of the tangent at a point whose
/// y is not 0.
proof fn lemma_slope_facts(x1: int, y1: int, x2: int, y2: int, a: int, p: int)
    requires
        is_prime(p as nat),
        0 <= x1 < p,
        0 <= y1 < p,
        0 <= x2 < p,
        0 <= y2 < p,
        0 <= a < p,
        x1 == x2 ==> y1 == y2 && spec_mod_add(y1, y2, p) != 0,
    ensures
        0 <= spec_slope(x1, y1, x2, y2, a, p) < p,
        x1 != x2 ==> cong(spec_slope(x1, y1, x2, y2, a, p) * (x2 - x1), y2 - y1, p),
        x1 == x2 ==> cong(spec_slope(x1, y1, x2, y2, a, p) * (2 * y1), 3 * (x1 * x1) + a, p),
        x1 != x2 ==> 0 < spec_mod_sub(x2, x1, p) < p,
        x1 == x2 ==> 0 < spec_mod_mul(2, y1, p) < p,
{
    let m = spec_slope(x1, y1, x2, y2, a, p);
    if x1 != x2 {
        let num = spec_mod_sub(y2, y1, p);
        let d = spec_mod_sub(x2, x1, p);
        lemma_reduced_ops(y2, y1, p);
        lemma_reduced_ops(x2, x1, p);
        if d == 0 {
            lemma_cong_sym(d, x2 - x1, p);
            assert((x2 - x1) % p == 0);
            lemma_cong_zero_small(x2 - x1, p);
        }
        lemma_prime_inverse(d, p);
        let inv = inv_value(d, p);
        lemma_reduced_ops(num, inv, p);
        lemma_times_inverse(num, d, inv, m, p);
        lemma_cong_refl(m, p);
        lemma_cong_mul(m, m, d, x2 - x1, p);
        lemma_cong_sym(m * d, m * (x2 - x1), p);
        lemma_cong_trans(m * (x2 - x1), m * d, num, p);
        lemma_cong_trans(m * (x2 - x1), num, y2 - y1, p);
    } else {
        let sq = spec_mod_mul(x1, x1, p);
        lemma_reduced_ops(x1, x1, p);
        let t = spec_mod_mul(3, sq, p);
        lemma_reduced_ops(3, sq, p);
        let num = spec_mod_add(t, a, p);
        lemma_reduced_ops(t, a, p);
        let den = spec_mod_mul(2, y1, p);
        lemma_reduced_ops(2, y1, p);
        lemma_reduced_ops(y1, y1, p);
        if den == 0 {
            assert(y1 + y1 == 2 * y1);
            lemma_cong_sym(den, 2 * y1, p);
            lemma_cong_trans(spec_mod_add(y1, y1, p), 2 * y1, 0, p);
            lemma_cong_reduced(spec_mod_add(y1, y1, p), 0, p);
        }
        lemma_prime_inverse(den, p);
        let inv = inv_value(den, p);
        lemma_reduced_ops(num, inv, p);
        lemma_times_inverse(num, den, inv, m, p);
        lemma_cong_refl(m, p);
        lemma_cong_mul(m, m, den, 2 * y1, p);
        lemma_cong_sym(m * den, m * (2 * y1), p);
        lemma_cong_trans(m * (2 * y1), m * den, num, p);
        // num is 3 x1^2 + a
        lemma_cong_refl(3, p);
        lemma_cong_mul(3, 3, sq, x1 * x1, p);
        lemma_cong_trans(t, 3 * sq, 3 * (x1 * x1), p);
        lemma_cong_refl(a, p);
        lemma_cong_add(t, 3 * (x1 * x1), a, a, p);
        lemma_cong_trans(num, t + a, 3 * (x1 * x1) + a, p);
        lemma_cong_trans(m * (2 * y1), num, 3 * (x1 * x1) + a, p);
    }
}

/// The right-hand side of the curve equation at `x`.
pub open spec fn curve_rhs(x: int, a: int, b: int) -> int {
    x * x * x + a * x + b
}

/// The curve equation less the square of the line of slope `m` through
/// `(x1, y1)`, at `x`.
spec fn line_gap(x: int, m: int, x1: int, y1: int, a: int, b: int) -> int {
    curve_rhs(x, a, b) - (m * (x - x1) + y1) * (m * (x - x1) + y1)
}

/// `line_gap` less its value at `x1`, divided by `x - x1`.
spec fn gap_quotient(x: int, m: int, x1: int, y1: int, a: int) -> int {
    x * x + x * x1 + x1 * x1 + a - m * m * (x - x1) - 2 * m * y1
}

proof fn lemma_gap_factors(x: int, x2: int, m: int, x1: int, y1: int, a: int, b: int)
    ensures
        line_gap(x, m, x1, y1, a, b) - line_gap(x1, m, x1, y1, a, b) == (x - x1) * gap_quotient(x, m, x1, y1, a),
        gap_quotient(x, m, x1, y1, a) - gap_quotient(x2, m, x1, y1, a) == (x - x2) * (x + x2 + x1 - m * m),
        gap_quotient(x1, m, x1, y1, a) == 3 * (x1 * x1) + a - m * (2 * y1),
        line_gap(x1, m, x1, y1, a, b) == curve_rhs(x1, a, b) - y1 * y1,
{
    let d = x - x1;
    assert(x * x * x - x1 * x1 * x1 == d * (x * x + x * x1 + x1 * x1)) by (nonlinear_arith)
        requires
            d == x - x1,
    ;
    assert(a * x - a * x1 == d * a) by (nonlinear_arith)
        requires
            d == x - x1,
    ;
    assert((m * d + y1) * (m * d + y1) - y1 * y1 == d * (m * m * d + 2 * m * y1)) by (nonlinear_arith);
    assert(m * (x1 - x1) + y1 == y1);
    assert(d * (x * x + x * x1 + x1 * x1) + d * a - d * (m * m * d + 2 * m * y1) == d * (x * x + x * x1
        + x1 * x1 + a - m * m * d - 2 * m * y1)) by (nonlinear_arith);
    assert(gap_quotient(x, m, x1, y1, a) - gap_quotient(x2, m, x1, y1, a) == (x - x2) * (x + x2 + x1
        - m * m)) by (nonlinear_arith);
    assert(gap_quotient(x1, m, x1, y1, a) == 3 * (x1 * x1) + a - m * (2 * y1)) by (nonlinear_arith);
    assert(line_gap(x1, m, x1, y1, a, b) == curve_rhs(x1, a, b) - y1 * y1) by (nonlinear_arith);
}

/// The line of slope `m` through two points of the curve (or tangent at
/// one) meets the curve again at `m^2 - x1 - x2`.
proof fn lemma_third_intersection(m: int, x1: int, y1: int, x2: int, y2: int, a: int, b: int, p: int)
    requires
        p > 1,
        is_prime(p as nat),
        cong(y1 * y1, curve_rhs(x1, a, b), p),
        cong(y2 * y2, curve_rhs(x2, a, b), p),
        x1 != x2 ==> cong(m * (x2 - x1), y2 - y1, p) && (x2 - x1) % p != 0,
        x1 == x2 ==> y1 == y2 && cong(m * (2 * y1), 3 * (x1 * x1) + a, p),
    ensures
        cong(line_gap(m * m - x1 - x2, m, x1, y1, a, b), 0, p),
{
    let xx = m * m - x1 - x2;
    lemma_gap_factors(xx, x2, m, x1, y1, a, b);
    lemma_gap_factors(x2, x2, m, x1, y1, a, b);
    let g1 = line_gap(x1, m, x1, y1, a, b);
    assert(cong(g1, 0, p)) by {
        lemma_cong_sym(y1 * y1, curve_rhs(x1, a, b), p);
    }
    let q2 = gap_quotient(x2, m, x1, y1, a);
    if x1 != x2 {
        let t = m * (x2 - x1) + y1;
        lemma_cong_refl(y1, p);
        lemma_cong_add(m * (x2 - x1), y2 - y1, y1, y1, p);
        assert(y2 - y1 + y1 == y2);
        lemma_cong_mul(t, y2, t, y2, p);
        lemma_cong_trans(t * t, y2 * y2, curve_rhs(x2, a, b), p);
        assert(x2 - x1 == x2 - x1);
        assert(line_gap(x2, m, x1, y1, a, b) == curve_rhs(x2, a, b) - t * t);
        lemma_cong_sym(t * t, curve_rhs(x2, a, b), p);
        let g2 = line_gap(x2, m, x1, y1, a, b);
        lemma_divisible_sum(g2, g1 - 0, p);
        assert(((x2 - x1) * q2) % p == 0);
        lemma_euclid(x2 - x1, q2, p as nat);
    } else {
        assert(q2 == 3 * (x1 * x1) + a - m * (2 * y1));
        lemma_cong_sym(m * (2 * y1), 3 * (x1 * x1) + a, p);
        assert(q2 % p == 0);
    }
    assert(xx + x2 + x1 - m * m == 0);
    assert((xx - x2) * (xx + x2 + x1 - m * m) == 0) by (nonlinear_arith)
        requires
            xx + x2 + x1 - m * m == 0,
    ;
    let qx = gap_quotient(xx, m, x1, y1, a);
    assert(qx == q2);
    lemma_divisible_mul(qx, xx - x1, p);
    lemma_divisible_sum(g1 - 0, (xx - x1) * qx, p);
}

/// Two points of the curve with the same x that are not opposite are the
/// same point: y1^2 = y2^2 leaves y2 = y1 or y2 = -y1 modulo a prime.
proof fn lemma_same_x(x: int, y1: int, y2: int, a: int, b: int, p: int)
    requires
        p > 1,
        is_prime(p as nat),
        0 <= y1 < p,
        0 <= y2 < p,
        cong(y1 * y1, curve_rhs(x, a, b), p),
        cong(y2 * y2, curve_rhs(x, a, b), p),
        spec_mod_add(y1, y2, p) != 0,
    ensures
        y1 == y2,
{
    lemma_cong_sym(y2 * y2, curve_rhs(x, a, b), p);
    lemma_cong_trans(y1 * y1, curve_rhs(x, a, b), y2 * y2, p);
    assert((y1 - y2) * (y1 + y2) == y1 * y1 - y2 * y2) by (nonlinear_arith);
    lemma_euclid(y1 - y2, y1 + y2, p as nat);
    if (y1 - y2) % p == 0 {
        lemma_cong_zero_small(y1 - y2, p);
    } else {
        lemma_reduced_ops(y1, y2, p);
        lemma_cong_trans(spec_mod_add(y1, y2, p), y1 + y2, 0, p);
        lemma_cong_reduced(spec_mod_add(y1, y2, p), 0, p);
    }
}

/// Two different reduced values are not congruent.
proof fn lemma_distinct_reduced(u: int, v: int, p: int)
    requires
        p > 0,
        0 <= u < p,
        0 <= v < p,
        u != v,
    ensures
        (v - u) % p != 0,
{
    if (v - u) % p == 0 {
        lemma_cong_zero_small(v - u, p);
    }
}

/// The third point `point_add` computes for two points of the curve that
/// are not opposite lies on the curve.
proof fn lemma_third_on_curve(x1: int, y1: int, x2: int, y2: int, a: int, b: int, p: int)
    requires
        p > 1,
        p <= i64::MAX,
        is_prime(p as nat),
        0 <= x1 < p,
        0 <= y1 < p,
        0 <= x2 < p,
        0 <= y2 < p,
        0 <= a < p,
        cong(y1 * y1, curve_rhs(x1, a, b), p),
        cong(y2 * y2, curve_rhs(x2, a, b), p),
        x1 == x2 ==> y1 == y2 && spec_mod_add(y1, y2, p) != 0,
    ensures
        ({
            let m = spec_slope(x1, y1, x2, y2, a, p);
            let t = spec_third_point(m, x1, y1, x2, p);
            &&& 0 <= t.0 < p
            &&& 0 <= t.1 < p
            &&& cong(t.1 * t.1, curve_rhs(t.0 as int, a, b), p)
        }),
{
    let m = spec_slope(x1, y1, x2, y2, a, p);
    lemma_slope_facts(x1, y1, x2, y2, a, p);
    if x1 != x2 {
        lemma_distinct_reduced(x1, x2, p);
    }
    lemma_third_intersection(m, x1, y1, x2, y2, a, b, p);
    let xx = m * m - x1 - x2;
    let mm = spec_mod_mul(m, m, p);
    lemma_reduced_ops(m, m, p);
    let s1 = spec_mod_sub(mm, x1, p);
    lemma_reduced_ops(mm, x1, p);
    let x3 = spec_mod_sub(s1, x2, p);
    lemma_reduced_ops(s1, x2, p);
    lemma_cong_refl(x1, p);
    lemma_cong_refl(x2, p);
    lemma_cong_add(mm, m * m, x1, x1, p);
    lemma_cong_trans(s1, mm - x1, m * m - x1, p);
    lemma_cong_add(s1, m * m - x1, x2, x2, p);
    lemma_cong_trans(x3, s1 - x2, xx, p);
    let d = spec_mod_sub(x1, x3, p);
    lemma_reduced_ops(x1, x3, p);
    let e = spec_mod_mul(m, d, p);
    lemma_reduced_ops(m, d, p);
    let y3 = spec_mod_sub(e, y1, p);
    lemma_reduced_ops(e, y1, p);
    lemma_cong_add(x1, x1, x3, xx, p);
    lemma_cong_trans(d, x1 - x3, x1 - xx, p);
    lemma_cong_refl(m, p);
    lemma_cong_mul(m, m, d, x1 - xx, p);
    lemma_cong_trans(e, m * d, m * (x1 - xx), p);
    lemma_cong_refl(y1, p);
    lemma_cong_add(e, m * (x1 - xx), y1, y1, p);
    lemma_cong_trans(y3, e - y1, m * (x1 - xx) - y1, p);
    let w = m * (xx - x1) + y1;
    assert((m * (x1 - xx) - y1) * (m * (x1 - xx) - y1) == w * w) by (nonlinear_arith)
        requires
            w == m * (xx - x1) + y1,
    ;
    lemma_cong_mul(y3, m * (x1 - xx) - y1, y3, m * (x1 - xx) - y1, p);
    // the curve at x3 agrees with the curve at xx
    lemma_cong_mul(x3, xx, x3, xx, p);
    lemma_cong_mul(x3 * x3, xx * xx, x3, xx, p);
    let aa = a;
    lemma_cong_refl(aa, p);
    lemma_cong_mul(aa, aa, x3, xx, p);
    lemma_cong_add(x3 * x3 * x3, xx * xx * xx, aa * x3, aa * xx, p);
    lemma_cong_refl(b, p);
    lemma_cong_add(x3 * x3 * x3 + aa * x3, xx * xx * xx + aa * xx, b, b, p);
    assert(curve_rhs(x3, a, b) == x3 * x3 * x3 + aa * x3 + b);
    assert(curve_rhs(xx, a, b) == xx * xx * xx + aa * xx + b);
    // the line meets the curve at xx
    assert(line_gap(xx, m, x1, y1, a, b) == curve_rhs(xx, a, b) - w * w);
    lemma_cong_sym(line_gap(xx, m, x1, y1, a, b), 0, p);
    lemma_divisible_sum(0 - line_gap(xx, m, x1, y1, a, b), 0, p);
    assert(cong(w * w, curve_rhs(xx, a, b), p));
    lemma_cong_trans(y3 * y3, w * w, curve_rhs(xx, a, b), p);
    lemma_cong_sym(curve_rhs(x3, a, b), curve_rhs(xx, a, b), p);
    lemma_cong_trans(y3 * y3, curve_rhs(xx, a, b), curve_rhs(x3, a, b), p);
    let t = spec_third_point(m, x1, y1, x2, p);
    assert(t.0 as int == x3);
    assert(t.1 as int == y3);
}

/// For two points with different x, the sum is the same in either order.
proof fn lemma_chord_symmetric(x1: int, y1: int, x2: int, y2: int, a: int, p: int)
    requires
        p > 1,
        p <= i64::MAX,
        is_prime(p as nat),
        0 <= x1 < p,
        0 <= y1 < p,
        0 <= x2 < p,
        0 <= y2 < p,
        0 <= a < p,
        x1 != x2,
    ensures
        spec_third_point(spec_slope(x1, y1, x2, y2, a, p), x1, y1, x2, p) == spec_third_point(
            spec_slope(x2, y2, x1, y1, a, p),
            x2,
            y2,
            x1,
            p,
        ),
{
    let m = spec_slope(x1, y1, x2, y2, a, p);
    let n = spec_slope(x2, y2, x1, y1, a, p);
    lemma_slope_facts(x1, y1, x2, y2, a, p);
    lemma_slope_facts(x2, y2, x1, y1, a, p);
    lemma_distinct_reduced(x1, x2, p);
    // n (x2 - x1) = -(n (x1 - x2)), congruent to -(y1 - y2) = y2 - y1
    assert(n * (x2 - x1) == -1 * (n * (x1 - x2))) by (nonlinear_arith);
    lemma_divisible_mul(n * (x1 - x2) - (y1 - y2), -1, p);
    assert(-1 * (n * (x1 - x2) - (y1 - y2)) == n * (x2 - x1) - (y2 - y1));
    lemma_cong_sym(n * (x2 - x1), y2 - y1, p);
    lemma_cong_trans(m * (x2 - x1), y2 - y1, n * (x2 - x1), p);
    assert(m * (x2 - x1) - n * (x2 - x1) == (m - n) * (x2 - x1)) by (nonlinear_arith);
    lemma_euclid(m - n, x2 - x1, p as nat);
    lemma_cong_reduced(m, n, p);
    // the x-coordinates
    let mm = spec_mod_mul(m, m, p);
    lemma_reduced_ops(m, m, p);
    let s1 = spec_mod_sub(mm, x1, p);
    lemma_reduced_ops(mm, x1, p);
    let xa = spec_mod_sub(s1, x2, p);
    lemma_reduced_ops(s1, x2, p);
    let s2 = spec_mod_sub(mm, x2, p);
    lemma_reduced_ops(mm, x2, p);
    let xb = spec_mod_sub(s2, x1, p);
    lemma_reduced_ops(s2, x1, p);
    lemma_cong_refl(x1, p);
    lemma_cong_refl(x2, p);
    lemma_cong_add(s1, mm - x1, x2, x2, p);
    lemma_cong_trans(xa, s1 - x2, mm - x1 - x2, p);
    lemma_cong_add(s2, mm - x2, x1, x1, p);
    lemma_cong_trans(xb, s2 - x1, mm - x2 - x1, p);
    lemma_cong_sym(xb, mm - x2 - x1, p);
    lemma_cong_trans(xa, mm - x1 - x2, xb, p);
    lemma_cong_reduced(xa, xb, p);
    // the y-coordinates
    let da = spec_mod_sub(x1, xa, p);
    lemma_reduced_ops(x1, xa, p);
    let ea = spec_mod_mul(m, da, p);
    lemma_reduced_ops(m, da, p);
    let ya = spec_mod_sub(ea, y1, p);
    lemma_reduced_ops(ea, y1, p);
    let db = spec_mod_sub(x2, xa, p);
    lemma_reduced_ops(x2, xa, p);
    let eb = spec_mod_mul(m, db, p);
    lemma_reduced_ops(m, db, p);
    let yb = spec_mod_sub(eb, y2, p);
    lemma_reduced_ops(eb, y2, p);
    lemma_cong_refl(m, p);
    lemma_cong_mul(m, m, da, x1 - xa, p);
    lemma_cong_trans(ea, m * da, m * (x1 - xa), p);
    lemma_cong_mul(m, m, db, x2 - xa, p);
    lemma_cong_trans(eb, m * db, m * (x2 - xa), p);
    lemma_cong_refl(y1, p);
    lemma_cong_refl(y2, p);
    lemma_cong_add(ea, m * (x1 - xa), y1, y1, p);
    lemma_cong_trans(ya, ea - y1, m * (x1 - xa) - y1, p);
    lemma_cong_add(eb, m * (x2 - xa), y2, y2, p);
    lemma_cong_trans(yb, eb - y2, m * (x2 - xa) - y2, p);
    assert((m * (x1 - xa) - y1) - (m * (x2 - xa) - y2) == (y2 - y1) - m * (x2 - x1)) by (nonlinear_arith);
    lemma_cong_sym(m * (x2 - x1), y2 - y1, p);
    lemma_cong_sym(yb, m * (x2 - xa) - y2, p);
    lemma_cong_trans(ya, m * (x1 - xa) - y1, m * (x2 - xa) - y2, p);
    lemma_cong_trans(ya, m * (x2 - xa) - y2, yb, p);
    lemma_cong_reduced(ya, yb, p);
}

/// The group laws of `point_add` on a curve y^2 = x^3 + a x + b over a
/// prime field, for points of the curve with reduced coordinates: the point
/// at infinity is neutral on either side; the sum does not depend on the
/// order of the points; the sum is again on the curve; and two points add
/// up to the point at infinity exactly when they have the same x and their
/// y's add up to 0 modulo `p`.
pub proof fn lemma_point_add_laws(p1: Option<(i64, i64)>, p2: Option<(i64, i64)>, a: int, b: int, p: int)
    requires
        1 < p <= i64::MAX,
        is_prime(p as nat),
        0 <= a < p,
        on_curve(p1, a, b, p),
        on_curve(p2, a, b, p),
    ensures
        spec_point_add(None, p1, a, p) == p1,
        spec_point_add(p1, None, a, p) == p1,
        spec_point_add(p1, p2, a, p) == spec_point_add(p2, p1, a, p),
        on_curve(spec_point_add(p1, p2, a, p), a, b, p),
        match (p1, p2) {
            (Some((x1, y1)), Some((x2, y2))) => spec_point_add(p1, p2, a, p) is None <==> x1 == x2 && (y1
                + y2) % p == 0,
            _ => spec_point_add(p1, p2, a, p) is Some <==> p1 is Some || p2 is Some,
        },
{
    match (p1, p2) {
        (Some((x1, y1)), Some((x2, y2))) => {
            let (x1, y1, x2, y2) = (x1 as int, y1 as int, x2 as int, y2 as int);
            lemma_reduced_ops(y1, y2, p);
            lemma_reduced_ops(y2, y1, p);
            lemma_trem_congruent(y1 + y2, p);
            assert(spec_mod_add(y1, y2, p) == (y1 + y2) % p) by {
                vstd::arithmetic::div_mod::lemma_small_mod(y1 as nat, p as nat);
                vstd::arithmetic::div_mod::lemma_small_mod(y2 as nat, p as nat);
            }
            assert(spec_mod_add(y2, y1, p) == spec_mod_add(y1, y2, p));
            if x1 == x2 && spec_mod_add(y1, y2, p) == 0 {
            } else {
                if x1 == x2 {
                    lemma_same_x(x1, y1, y2, a, b, p);
                    lemma_third_on_curve(x1, y1, x2, y2, a, b, p);
                } else {
                    lemma_third_on_curve(x1, y1, x2, y2, a, b, p);
                    lemma_chord_symmetric(x1, y1, x2, y2, a, p);
                }
            }
        },
        _ => {},
    }
}

/// Modulo a prime the strict inverse of a nonzero reduced value is its
/// inverse.
proof fn lemma_strict_inverse(d: int, p: int)
    requires
        p > 1,
        is_prime(p as nat),
        0 < d < p,
    ensures
        spec_inv_strict(d, p) == inv_value(d, p),
{
    lemma_coprime_to_prime(d as nat, p as nat);
    lemma_trem_congruent(d, p);
    vstd::arithmetic::div_mod::lemma_small_mod(d as nat, p as nat);
    lemma_inv_value_facts(d, p);
}

/// On reduced points of a curve over a prime field, the BLS module adds
/// points exactly as the ECDSA module does.
proof fn lemma_bls_same_sum(p1: Option<(i64, i64)>, p2: Option<(i64, i64)>, a: int, b: int, p: int)
    requires
        1 < p <= i64::MAX,
        is_prime(p as nat),
        0 <= a < p,
        on_curve(p1, a, b, p),
        on_curve(p2, a, b, p),
    ensures
        bls::spec_point_add(p1, p2, a, p) == spec_point_add(p1, p2, a, p),
{
    match (p1, p2) {
        (Some((x1, y1)), Some((x2, y2))) => {
            let (x1, y1, x2, y2) = (x1 as int, y1 as int, x2 as int, y2 as int);
            if !(x1 == x2 && spec_mod_add(y1, y2, p) == 0) {
                if x1 == x2 {
                    lemma_same_x(x1, y1, y2, a, b, p);
                    lemma_slope_facts(x1, y1, x2, y2, a, p);
                    lemma_strict_inverse(spec_mod_mul(2, y1, p), p);
                } else {
                    lemma_slope_facts(x1, y1, x2, y2, a, p);
                    lemma_strict_inverse(spec_mod_sub(x2, x1, p), p);
                }
                assert(bls::spec_slope(x1, y1, x2, y2, a, p) == spec_slope(x1, y1, x2, y2, a, p));
            }
        },
        _ => {},
    }
}

/// The group laws of the BLS module's point addition on a curve
/// y^2 = x^3 + a x + b over a prime field, for points of the curve with
/// reduced coordinates: the point at infinity is neutral, the sum does not
/// depend on the order, the sum is on the curve, two points add up to the
/// point at infinity exactly when they are opposite, and the slope through
/// two points with different x is the chord's: `m (x2 - x1) = y2 - y1`.
pub proof fn lemma_bls_point_add_laws(p1: Option<(i64, i64)>, p2: Option<(i64, i64)>, a: int, b: int, p: int)
    requires
        1 < p <= i64::MAX,
        is_prime(p as nat),
        0 <= a < p,
        on_curve(p1, a, b, p),
        on_curve(p2, a, b, p),
    ensures
        bls::spec_point_add(None, p1, a, p) == p1,
        bls::spec_point_add(p1, None, a, p) == p1,
        bls::spec_point_add(p1, p2, a, p) == bls::spec_point_add(p2, p1, a, p),
        on_curve(bls::spec_point_add(p1, p2, a, p), a, b, p),
        match (p1, p2) {
            (Some((x1, y1)), Some((x2, y2))) => {
                &&& (bls::spec_point_add(p1, p2, a, p) is None <==> x1 == x2 && (y1 + y2) % p == 0)
                &&& x1 != x2 ==> cong(
                    bls::spec_slope(x1 as int, y1 as int, x2 as int, y2 as int, a, p) * (x2 - x1),
                    y2 - y1,
                    p,
                )
            },
            _ => bls::spec_point_add(p1, p2, a, p) is Some <==> p1 is Some || p2 is Some,
        },
{
    lemma_point_add_laws(p1, p2, a, b, p);
    lemma_bls_same_sum(p1, p2, a, b, p);
    lemma_bls_same_sum(p2, p1, a, b, p);
    match (p1, p2) {
        (Some((x1, y1)), Some((x2, y2))) => {
            if x1 != x2 {
                let (x1, y1, x2, y2) = (x1 as int, y1 as int, x2 as int, y2 as int);
                lemma_slope_facts(x1, y1, x2, y2, a, p);
                lemma_strict_inverse(spec_mod_sub(x2, x1, p), p);
                assert(bls::spec_slope(x1, y1, x2, y2, a, p) == spec_slope(x1, y1, x2, y2, a, p));
            }
        },
        _ => {},
    }
}

} // verus!
