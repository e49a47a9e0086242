//! Rust's truncating integer division and remainder as mathematical
//! functions, and the extended Euclidean recurrence that the key-generation
//! and inversion routines of this crate run.
use vstd::prelude::*;
use vstd::arithmetic::div_mod::*;
use vstd::arithmetic::mul::*;

verus! {

pub open spec fn abs(x: int) -> int {
    if x < 0 { -x } else { x }
}

/// `a / b` as Rust computes it on signed integers: the quotient rounded
/// toward zero.
pub open spec fn tdiv(a: int, b: int) -> int {
    if a >= 0 { a / b } else { -((-a) / b) }
}

/// `a % b` as Rust computes it on signed integers: the remainder takes the
/// sign of `a`.
pub open spec fn trem(a: int, b: int) -> int {
    if a >= 0 { a % b } else { -((-a) % b) }
}

proof fn lemma_euclid_neg_divisor(a: int, b: int)
    requires
        a >= 0,
        b < 0,
    ensures
        a / b == -(a / (-b)),
        a % b == a % (-b),
{
    lemma_fundamental_div_mod(a, b);
    lemma_fundamental_div_mod(a, -b);
    lemma_mod_bound(a, -b);
    assert(0 <= a % b < -b);
    assert((-(a / b)) * (-b) == b * (a / b)) by (nonlinear_arith);
    lemma_fundamental_div_mod_converse(a, -b, -(a / b), a % b);
}

/// Truncating division splits `a` into a multiple of `b` and a remainder
/// that is smaller than `b` in magnitude and carries the sign of `a`.
pub proof fn lemma_trunc_div_rem(a: int, b: int)
    requires
        b != 0,
    ensures
        a == tdiv(a, b) * b + trem(a, b),
        abs(trem(a, b)) < abs(b),
        a >= 0 ==> trem(a, b) >= 0,
        a < 0 ==> trem(a, b) <= 0,
        abs(tdiv(a, b)) * abs(b) + abs(trem(a, b)) == abs(a),
        abs(tdiv(a, b)) <= abs(a),
{
    let m = abs(b);
    let x = abs(a);
    lemma_fundamental_div_mod(x, m);
    lemma_mod_bound(x, m);
    lemma_div_pos_is_pos(x, m);
    if b < 0 {
        lemma_euclid_neg_divisor(x, b);
    }
    assert(x / m * m + x % m == x) by {
        lemma_mul_is_commutative(m, x / m);
    }
    assert(abs(tdiv(a, b)) == x / m);
    assert(abs(trem(a, b)) == x % m);
    let q = x / m;
    let r = x % m;
    assert(q * m + r == x);
    if a >= 0 {
        if b >= 0 {
            assert(tdiv(a, b) == q && trem(a, b) == r);
        } else {
            assert(tdiv(a, b) == -q && trem(a, b) == r);
            assert((-q) * b == q * m) by (nonlinear_arith)
                requires
                    m == -b,
            ;
        }
    } else {
        if b >= 0 {
            assert(tdiv(a, b) == -q && trem(a, b) == -r);
            assert((-q) * b == -(q * m)) by (nonlinear_arith)
                requires
                    m == b,
            ;
        } else {
            assert(tdiv(a, b) == q && trem(a, b) == -r);
            assert(q * b == -(q * m)) by (nonlinear_arith)
                requires
                    m == -b,
            ;
        }
    }
    assert(x / m <= x) by {
        lemma_mul_inequality(1, m, x / m);
        lemma_mul_is_commutative(m, x / m);
    }
}


/// The extended Euclidean recurrence on remainders `r0, r1` and coefficients
/// `t0, t1`, with Rust's truncating division. It returns the last nonzero
/// remainder and the coefficient that goes with it.
pub open spec fn ext_euclid(r0: int, r1: int, t0: int, t1: int) -> (int, int)
    decreases abs(r1),
{
    if r1 == 0 {
        (r0, t0)
    } else {
        proof {
            lemma_trunc_div_rem(r0, r1);
        }
        let q = tdiv(r0, r1);
        ext_euclid(r1, r0 - q * r1, t1, t0 - q * t1)
    }
}

/// The greatest common divisor of two natural numbers.
pub open spec fn gcd(a: nat, b: nat) -> nat
    decreases b,
{
    if b == 0 {
        a
    } else {
        gcd(b, a % b)
    }
}

/// Whatever linear relation modulo `p` ties each coefficient to its
/// remainder at the start still holds for the pair the recurrence returns.
pub proof fn lemma_ext_euclid_bezout(r0: int, r1: int, t0: int, t1: int, a: int, p: int)
    requires
        p > 0,
        (t0 * a - r0) % p == 0,
        (t1 * a - r1) % p == 0,
    ensures
        (ext_euclid(r0, r1, t0, t1).1 * a - ext_euclid(r0, r1, t0, t1).0) % p == 0,
    decreases abs(r1),
{
    if r1 != 0 {
        lemma_trunc_div_rem(r0, r1);
        let q = tdiv(r0, r1);
        let x = t0 * a - r0;
        let y = t1 * a - r1;
        assert((t0 - q * t1) * a - (r0 - q * r1) == x - q * y) by (nonlinear_arith)
            requires
                x == t0 * a - r0,
                y == t1 * a - r1,
        ;
        assert((x - q * y) % p == 0) by {
            lemma_fundamental_div_mod(x, p);
            lemma_fundamental_div_mod(y, p);
            let kx = x / p;
            let ky = y / p;
            assert(x - q * y == p * (kx - q * ky)) by (nonlinear_arith)
                requires
                    x == p * kx,
                    y == p * ky,
            ;
            lemma_mod_multiples_basic(kx - q * ky, p);
            lemma_mul_is_commutative(p, kx - q * ky);
        }
        lemma_ext_euclid_bezout(r1, r0 - q * r1, t1, t0 - q * t1, a, p);
    }
}

/// On natural numbers the recurrence ends at the greatest common divisor.
pub proof fn lemma_ext_euclid_gcd(r0: int, r1: int, t0: int, t1: int)
    requires
        r0 >= 0,
        r1 >= 0,
    ensures
        ext_euclid(r0, r1, t0, t1).0 == gcd(r0 as nat, r1 as nat),
    decreases r1,
{
    if r1 != 0 {
        lemma_trunc_div_rem(r0, r1);
        let q = tdiv(r0, r1);
        assert(r0 - q * r1 == r0 % r1);
        lemma_ext_euclid_gcd(r1, r0 - q * r1, t1, t0 - q * t1);
    }
}

proof fn lemma_abs_mul(x: int, y: int)
    ensures
        abs(x * y) == abs(x) * abs(y),
{
    if x < 0 && y < 0 {
        assert(x * y == (-x) * (-y)) by (nonlinear_arith);
        assert((-x) * (-y) >= 0) by (nonlinear_arith)
            requires
                x < 0,
                y < 0,
        ;
    } else if x < 0 {
        assert(x * y == -((-x) * y)) by (nonlinear_arith);
        assert((-x) * y >= 0) by (nonlinear_arith)
            requires
                x < 0,
                y >= 0,
        ;
    } else if y < 0 {
        assert(x * y == -(x * (-y))) by (nonlinear_arith);
        assert(x * (-y) >= 0) by (nonlinear_arith)
            requires
                x >= 0,
                y < 0,
        ;
    } else {
        assert(x * y >= 0) by (nonlinear_arith)
            requires
                x >= 0,
                y >= 0,
        ;
    }
}

/// One step of the recurrence keeps `|t1| * |r0| + |t0| * |r1|` under the
/// same bound, so no coefficient ever grows past it.
pub proof fn lemma_ext_euclid_step_bound(r0: int, r1: int, t0: int, t1: int, bound: int)
    requires
        r1 != 0,
        abs(t1) * abs(r0) + abs(t0) * abs(r1) <= bound,
    ensures
        ({
            let q = tdiv(r0, r1);
            let t2 = t0 - q * t1;
            let r2 = r0 - q * r1;
            &&& abs(t2) * abs(r1) + abs(t1) * abs(r2) <= bound
            &&& abs(q * t1) <= bound
            &&& abs(q * r1) <= abs(r0)
            &&& abs(r2) < abs(r1)
            &&& abs(t2) <= bound
            &&& r0 != 0 ==> abs(t1) <= bound
            &&& abs(t0) <= bound
        }),
{
    lemma_trunc_div_rem(r0, r1);
    let q = tdiv(r0, r1);
    let t2 = t0 - q * t1;
    let r2 = r0 - q * r1;
    let aq = abs(q);
    let ar0 = abs(r0);
    let ar1 = abs(r1);
    let ar2 = abs(r2);
    let at0 = abs(t0);
    let at1 = abs(t1);
    let at2 = abs(t2);
    lemma_abs_mul(q, t1);
    lemma_abs_mul(q, r1);
    assert(at2 <= at0 + aq * at1) by (nonlinear_arith)
        requires
            t2 == t0 - q * t1,
            at2 == abs(t2),
            at0 == abs(t0),
            aq * at1 == abs(q * t1),
    ;
    assert(aq * ar1 + ar2 == ar0);
    assert(at2 * ar1 + at1 * ar2 <= bound) by (nonlinear_arith)
        requires
            at2 <= at0 + aq * at1,
            aq * ar1 + ar2 == ar0,
            at1 * ar0 + at0 * ar1 <= bound,
            ar1 >= 1,
            ar2 >= 0,
            at1 >= 0,
            aq >= 0,
    ;
    assert(aq * at1 <= bound) by (nonlinear_arith)
        requires
            aq * ar1 + ar2 == ar0,
            at1 * ar0 + at0 * ar1 <= bound,
            ar1 >= 1,
            ar2 >= 0,
            at0 >= 0,
            at1 >= 0,
            aq >= 0,
    ;
    assert(at2 <= bound && at0 <= bound) by (nonlinear_arith)
        requires
            at2 * ar1 + at1 * ar2 <= bound,
            at1 * ar0 + at0 * ar1 <= bound,
            ar1 >= 1,
            ar0 >= 0,
            ar2 >= 0,
            at0 >= 0,
            at1 >= 0,
            at2 >= 0,
    ;
    if r0 != 0 {
        assert(at1 <= bound) by (nonlinear_arith)
            requires
                at1 * ar0 + at0 * ar1 <= bound,
                ar1 >= 1,
                ar0 >= 1,
                at0 >= 0,
                at1 >= 0,
        ;
    }
}

} // verus!
