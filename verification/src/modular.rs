//! Arithmetic modulo `p` on `i64` with Rust's remainder semantics, as the
//! toy elliptic-curve schemes of this crate use it.
use vstd::prelude::*;
use vstd::arithmetic::div_mod::*;
use crate::euclid::{
    abs, ext_euclid, gcd, lemma_ext_euclid_bezout, lemma_ext_euclid_gcd, lemma_ext_euclid_step_bound,
    lemma_trunc_div_rem, tdiv, trem,
};

verus! {

/// `a % p` cannot fail: `p` is nonzero and the quotient does not overflow.
pub open spec fn rem_ok(a: i64, p: i64) -> bool {
    p != 0 && !(a == i64::MIN && p == -1)
}

pub open spec fn fits_i64(x: int) -> bool {
    i64::MIN <= x <= i64::MAX
}

/// For a positive modulus the truncating remainder is congruent to `a` and
/// smaller than `p` in magnitude.
pub proof fn lemma_trem_congruent(a: int, p: int)
    requires
        p > 0,
    ensures
        (trem(a, p) - a) % p == 0,
        -p < trem(a, p) < p,
        a >= 0 ==> trem(a, p) == a % p,
{
    lemma_trunc_div_rem(a, p);
    let q = tdiv(a, p);
    assert(trem(a, p) - a == p * (-q)) by (nonlinear_arith)
        requires
            a == q * p + trem(a, p),
    ;
    lemma_mod_multiples_basic(-q, p);
    vstd::arithmetic::mul::lemma_mul_is_commutative(p, -q);
}

/// Sums and differences of multiples of `p` are multiples of `p`.
pub proof fn lemma_divisible_sum(x: int, y: int, p: int)
    requires
        p > 0,
        x % p == 0,
        y % p == 0,
    ensures
        (x + y) % p == 0,
        (x - y) % p == 0,
{
    lemma_add_mod_noop(x, y, p);
    lemma_sub_mod_noop(x, y, p);
    lemma_mod_self_0(p);
    assert(0int % p == 0);
}

/// The value `mod_add` returns.
pub open spec fn spec_mod_add(a: int, b: int, p: int) -> int {
    trem(trem(a, p) + trem(b, p), p)
}

/// The value `mod_sub` returns.
pub open spec fn spec_mod_sub(a: int, b: int, p: int) -> int {
    trem(trem(a, p) - trem(b, p) + p, p)
}

/// The value `mod_mul` returns.
pub open spec fn spec_mod_mul(a: int, b: int, p: int) -> int {
    trem(trem(trem(a, p) * b, p), p)
}

/// The value `mod_inv_strict` returns.
pub open spec fn spec_inv_strict(a: int, p: int) -> int {
    if inv_run(a, p).0 == 1 {
        inv_value(a, p)
    } else {
        0
    }
}

/// The results of the three reductions lie strictly between `-p` and `p`.
pub proof fn lemma_mod_ops_range(a: int, b: int, p: int)
    requires
        p > 0,
    ensures
        -p < spec_mod_add(a, b, p) < p,
        -p < spec_mod_sub(a, b, p) < p,
        -p < spec_mod_mul(a, b, p) < p,
        -p < trem(a, p) < p,
{
    lemma_trem_congruent(a, p);
    lemma_trem_congruent(trem(a, p) + trem(b, p), p);
    lemma_trem_congruent(trem(a, p) - trem(b, p) + p, p);
    lemma_trem_congruent(trem(a, p) * b, p);
    lemma_trem_congruent(trem(trem(a, p) * b, p), p);
}

/// `(a % p + b % p) % p`.
pub fn mod_add(a: i64, b: i64, p: i64) -> (r: i64)
    requires
        rem_ok(a, p),
        rem_ok(b, p),
        fits_i64(trem(a as int, p as int) + trem(b as int, p as int)),
    ensures
        r == trem(trem(a as int, p as int) + trem(b as int, p as int), p as int),
        p > 0 ==> (r - (a + b)) % (p as int) == 0,
{
    proof {
        if p > 0 {
            lemma_trem_congruent(a as int, p as int);
            lemma_trem_congruent(b as int, p as int);
            let s = trem(a as int, p as int) + trem(b as int, p as int);
            lemma_trem_congruent(s, p as int);
            lemma_divisible_sum(trem(a as int, p as int) - a, trem(b as int, p as int) - b, p as int);
            lemma_divisible_sum(trem(s, p as int) - s, s - (a + b), p as int);
        }
    }
    (a % p + b % p) % p
}


/// `x % p` cannot fail for an `i64` value `x`.
pub open spec fn rem_ok_int(x: int, p: i64) -> bool {
    p != 0 && !(x == i64::MIN && p == -1)
}

/// `(a % p - b % p + p) % p`.
pub fn mod_sub(a: i64, b: i64, p: i64) -> (r: i64)
    requires
        rem_ok(a, p),
        rem_ok(b, p),
        fits_i64(trem(a as int, p as int) - trem(b as int, p as int)),
        fits_i64(trem(a as int, p as int) - trem(b as int, p as int) + p),
        rem_ok_int(trem(a as int, p as int) - trem(b as int, p as int) + p, p),
    ensures
        r == trem(trem(a as int, p as int) - trem(b as int, p as int) + p, p as int),
        p > 0 ==> (r - (a - b)) % (p as int) == 0,
{
    proof {
        if p > 0 {
            let pp = p as int;
            lemma_trem_congruent(a as int, pp);
            lemma_trem_congruent(b as int, pp);
            let s = trem(a as int, pp) - trem(b as int, pp) + pp;
            lemma_trem_congruent(s, pp);
            lemma_divisible_sum(trem(a as int, pp) - a, trem(b as int, pp) - b, pp);
            lemma_mod_self_0(pp);
            lemma_divisible_sum((trem(a as int, pp) - a) - (trem(b as int, pp) - b), pp, pp);
            lemma_divisible_sum(trem(s, pp) - s, s - (a - b), pp);
        }
    }
    (a % p - b % p + p) % p
}

/// A multiple of a multiple of `p` is a multiple of `p`.
pub proof fn lemma_divisible_mul(x: int, k: int, p: int)
    requires
        p > 0,
        x % p == 0,
    ensures
        (k * x) % p == 0,
{
    lemma_mul_mod_noop_right(k, x, p);
    assert(k * 0 == 0) by (nonlinear_arith);
    lemma_small_mod(0, p as nat);
}

/// `(a % p * b % p) % p`, that is `((a % p) * b) % p` reduced once more.
pub fn mod_mul(a: i64, b: i64, p: i64) -> (r: i64)
    requires
        rem_ok(a, p),
        fits_i64(trem(a as int, p as int) * b),
        rem_ok_int(trem(a as int, p as int) * b, p),
    ensures
        r == trem(trem(trem(a as int, p as int) * b, p as int), p as int),
        p > 0 ==> (r - a * b) % (p as int) == 0,
{
    proof {
        if p > 0 {
            let pp = p as int;
            let ra = trem(a as int, pp);
            lemma_trem_congruent(a as int, pp);
            let m = ra * b;
            lemma_trem_congruent(m, pp);
            lemma_trem_congruent(trem(m, pp), pp);
            lemma_divisible_mul(ra - a, b as int, pp);
            assert(b * (ra - a) == m - a * b) by (nonlinear_arith)
                requires
                    m == ra * b,
            ;
            lemma_divisible_sum(trem(trem(m, pp), pp) - trem(m, pp), trem(m, pp) - m, pp);
            lemma_divisible_sum(trem(trem(m, pp), pp) - m, m - a * b, pp);
        }
    }
    (a % p * b % p) % p
}

/// The coefficient and the last remainder that inverting `a` modulo `p`
/// reaches.
pub open spec fn inv_run(a: int, p: int) -> (int, int) {
    ext_euclid(p, trem(a, p), 0, 1)
}

/// The value `mod_inv` returns: the coefficient brought into `[0, p)`.
pub open spec fn inv_value(a: int, p: int) -> int {
    trem(trem(inv_run(a, p).1, p) + p, p)
}

/// Runs the extended Euclidean recurrence on `p` and `a % p`, and returns
/// the last remainder and its coefficient.
fn ext_gcd_run(a: i64, p: i64) -> (res: (i64, i64))
    requires
        0 < p <= i64::MAX / 2,
    ensures
        res.0 == inv_run(a as int, p as int).0,
        res.1 == inv_run(a as int, p as int).1,
        abs(res.1 as int) <= p,
{
    let mut t0: i64 = 0;
    let mut t1: i64 = 1;
    let mut r0: i64 = p;
    let mut r1: i64 = a % p;
    proof {
        lemma_trunc_div_rem(a as int, p as int);
        let ar1 = abs(r1 as int);
        assert(abs(1) * abs(p as int) + abs(0) * ar1 == p) by (nonlinear_arith)
            requires
                p > 0,
        ;
    }
    while r1 != 0
        invariant
            0 < p <= i64::MAX / 2,
            ext_euclid(r0 as int, r1 as int, t0 as int, t1 as int) == inv_run(a as int, p as int),
            r0 != 0,
            abs(r1 as int) < abs(r0 as int) <= p,
            abs(t1 as int) * abs(r0 as int) + abs(t0 as int) * abs(r1 as int) <= p,
            abs(t0 as int) <= p,
        decreases abs(r1 as int),
    {
        proof {
            lemma_ext_euclid_step_bound(r0 as int, r1 as int, t0 as int, t1 as int, p as int);
            lemma_trunc_div_rem(r0 as int, r1 as int);
        }
        let q = r0 / r1;
        let temp_t = t0 - q * t1;
        t0 = t1;
        t1 = temp_t;
        let temp_r = r0 - q * r1;
        r0 = r1;
        r1 = temp_r;
    }
    (r0, t0)
}

pub proof fn lemma_inv_value_facts(a: int, p: int)
    requires
        p > 0,
    ensures
        0 <= inv_value(a, p) < p,
        (a * inv_value(a, p) - inv_run(a, p).0) % p == 0,
        p > 1 && trem(a, p) >= 0 && gcd(p as nat, trem(a, p) as nat) == 1 ==> (a * inv_value(a, p))
            % p == 1,
        p > 1 && trem(a, p) >= 0 && gcd(p as nat, trem(a, p) as nat) == 1 ==> inv_run(a, p).0 == 1,
{
    let t = inv_run(a, p).1;
    let g = inv_run(a, p).0;
    lemma_trem_congruent(a, p);
    lemma_mod_self_0(p);
    assert((0 * a - p) % p == 0) by {
        assert(0 * a - p == -p);
        lemma_mod_multiples_basic(-1, p);
    }
    assert((1 * a - trem(a, p)) % p == 0) by {
        lemma_divisible_sum(0, trem(a, p) - a, p);
        assert(0int % p == 0);
    }
    lemma_ext_euclid_bezout(p, trem(a, p), 0, 1, a, p);
    lemma_trem_congruent(t, p);
    let s = trem(t, p) + p;
    lemma_trem_congruent(s, p);
    let r = inv_value(a, p);
    assert(r == s % p);
    lemma_mod_bound(s, p);
    // r - t is a multiple of p
    lemma_divisible_sum(trem(s, p) - s, trem(t, p) - t, p);
    lemma_divisible_sum((trem(s, p) - s) + (trem(t, p) - t), p, p);
    assert(r - t == (trem(s, p) - s) + (trem(t, p) - t) + p);
    lemma_divisible_mul(r - t, a, p);
    assert(a * (r - t) == a * r - t * a) by (nonlinear_arith);
    lemma_divisible_sum(a * r - t * a, t * a - g, p);
    if p > 1 && trem(a, p) >= 0 && gcd(p as nat, trem(a, p) as nat) == 1 {
        lemma_ext_euclid_gcd(p, trem(a, p), 0, 1);
        assert(g == 1);
        lemma_fundamental_div_mod(a * r - 1, p);
        lemma_mod_multiples_vanish((a * r - 1) / p, 1, p);
        lemma_small_mod(1, p as nat);
    }
}

/// The inverse of `a` modulo `p` by the extended Euclidean algorithm,
/// brought into `[0, p)`. When `a` has no inverse the coefficient is returned
/// all the same.
pub fn mod_inv(a: i64, p: i64) -> (r: i64)
    requires
        0 < p <= i64::MAX / 2,
    ensures
        r == inv_value(a as int, p as int),
        0 <= r < p,
        (a * r - inv_run(a as int, p as int).0) % (p as int) == 0,
        p > 1 && trem(a as int, p as int) >= 0 && gcd(p as nat, trem(a as int, p as int) as nat) == 1
            ==> (a * r) % (p as int) == 1,
{
    proof {
        lemma_inv_value_facts(a as int, p as int);
    }
    let (_r0, t0) = ext_gcd_run(a, p);
    proof {
        lemma_trunc_div_rem(t0 as int, p as int);
    }
    (t0 % p + p) % p
}

/// The inverse of `a` modulo `p` by the extended Euclidean algorithm, or 0
/// when the recurrence does not end at remainder 1.
pub fn mod_inv_strict(a: i64, p: i64) -> (r: i64)
    requires
        0 < p <= i64::MAX / 2,
    ensures
        r == spec_inv_strict(a as int, p as int),
        inv_run(a as int, p as int).0 != 1 ==> r == 0,
        inv_run(a as int, p as int).0 == 1 ==> r == inv_value(a as int, p as int) && (a * r) % (
        p as int) == 1int % (p as int),
        0 <= r < p,
        p > 1 && trem(a as int, p as int) >= 0 && gcd(p as nat, trem(a as int, p as int) as nat) == 1
            ==> (a * r) % (p as int) == 1,
{
    proof {
        lemma_inv_value_facts(a as int, p as int);
    }
    let (r0, t0) = ext_gcd_run(a, p);
    if r0 != 1 {
        proof {
            if p > 1 && trem(a as int, p as int) >= 0 {
                lemma_ext_euclid_gcd(p as int, trem(a as int, p as int), 0, 1);
            }
        }
        return 0;
    }
    proof {
        lemma_trunc_div_rem(t0 as int, p as int);
        let r = inv_value(a as int, p as int);
        lemma_fundamental_div_mod(a * r - 1, p as int);
        lemma_mod_multiples_vanish((a * r - 1) / (p as int), 1, p as int);
    }
    (t0 % p + p) % p
}


/// Coordinates and curve parameters that the toy curve code accepts: small
/// enough that no product it forms leaves the `i64` range.
pub open spec fn small(x: int) -> bool {
    -0x8000_0000 <= x <= 0x8000_0000
}

/// A point (or the point at infinity, `None`) with small coordinates.
pub open spec fn point_ok(pt: Option<(i64, i64)>) -> bool {
    match pt {
        None => true,
        Some((x, y)) => small(x as int) && small(y as int),
    }
}

/// The largest modulus the toy curve code accepts.
pub open spec fn modulus_ok(p: int) -> bool {
    0 < p <= 0x8000_0000
}

/// Products of two reduced values stay far inside the `i64` range.
pub proof fn lemma_reduced_product(x: int, y: int, p: int)
    requires
        modulus_ok(p),
        -p < x < p,
        -p < y < p,
    ensures
        -0x4000_0000_0000_0000 <= x * y <= 0x4000_0000_0000_0000,
{
    assert(-0x4000_0000_0000_0000 <= x * y <= 0x4000_0000_0000_0000) by (nonlinear_arith)
        requires
            0 < p <= 0x8000_0000,
            -p < x < p,
            -p < y < p,
    ;
}

/// A reduced value times a small coordinate stays inside the `i64` range.
pub proof fn lemma_reduced_times_small(x: int, y: int, p: int)
    requires
        modulus_ok(p),
        -p < x < p,
        small(y),
    ensures
        -0x4000_0000_0000_0000 <= x * y <= 0x4000_0000_0000_0000,
{
    assert(-0x4000_0000_0000_0000 <= x * y <= 0x4000_0000_0000_0000) by (nonlinear_arith)
        requires
            0 < p <= 0x8000_0000,
            -p < x < p,
            -0x8000_0000 <= y <= 0x8000_0000,
    ;
}

/// A small constant times a small coordinate stays inside the `i64` range.
pub proof fn lemma_small_scaled(c: int, x: int, p: int)
    requires
        modulus_ok(p),
        0 <= c <= 4,
        small(x),
    ensures
        0 <= trem(c, p) <= 4,
        -0x4000_0000_0000_0000 <= trem(c, p) * x <= 0x4000_0000_0000_0000,
{
    lemma_mod_bound(c, p);
    vstd::arithmetic::div_mod::lemma_mod_self_0(p);
    if c < p {
        lemma_small_mod(c as nat, p as nat);
    } else {
        lemma_mod_bound(c, p);
    }
    assert(trem(c, p) == c % p);
    assert(-0x4000_0000_0000_0000 <= trem(c, p) * x <= 0x4000_0000_0000_0000) by (nonlinear_arith)
        requires
            0 <= trem(c, p) <= 4,
            small(x),
    ;
}

/// The third point on the line of slope `m` through `(x1, y1)` and `x2`,
/// reflected, as `point_add` computes it.
pub open spec fn spec_third_point(m: int, x1: int, y1: int, x2: int, p: int) -> (i64, i64) {
    let x3 = spec_mod_sub(spec_mod_sub(spec_mod_mul(m, m, p), x1, p), x2, p);
    let y3 = spec_mod_sub(spec_mod_mul(m, spec_mod_sub(x1, x3, p), p), y1, p);
    (x3 as i64, y3 as i64)
}

pub fn third_point(m: i64, x1: i64, y1: i64, x2: i64, p: i64) -> (r: (i64, i64))
    requires
        modulus_ok(p as int),
        -p < m < p,
        small(x1 as int),
        small(y1 as int),
        small(x2 as int),
    ensures
        r == spec_third_point(m as int, x1 as int, y1 as int, x2 as int, p as int),
        -p < r.0 < p,
        -p < r.1 < p,
{
    let ghost pp = p as int;
    proof {
        lemma_trem_congruent(m as int, pp);
        lemma_reduced_product(trem(m as int, pp), m as int, pp);
        lemma_trem_congruent(x1 as int, pp);
        lemma_trem_congruent(x2 as int, pp);
        lemma_trem_congruent(y1 as int, pp);
    }
    let mm = mod_mul(m, m, p);
    proof {
        lemma_mod_ops_range(m as int, m as int, pp);
        lemma_trem_congruent(mm as int, pp);
    }
    let d = mod_sub(mm, x1, p);
    proof {
        lemma_mod_ops_range(mm as int, x1 as int, pp);
        lemma_trem_congruent(d as int, pp);
    }
    let x3 = mod_sub(d, x2, p);
    proof {
        lemma_mod_ops_range(d as int, x2 as int, pp);
        lemma_trem_congruent(x3 as int, pp);
    }
    let e = mod_sub(x1, x3, p);
    proof {
        lemma_mod_ops_range(x1 as int, x3 as int, pp);
        lemma_reduced_product(trem(m as int, pp), e as int, pp);
    }
    let f = mod_mul(m, e, p);
    proof {
        lemma_mod_ops_range(m as int, e as int, pp);
        lemma_trem_congruent(f as int, pp);
    }
    let y3 = mod_sub(f, y1, p);
    proof {
        lemma_mod_ops_range(f as int, y1 as int, pp);
    }
    (x3, y3)
}

} // verus!
