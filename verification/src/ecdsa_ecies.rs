//! A teaching-sized ECDSA over the curve y^2 = x^3 + 2x + 1 modulo 5, with
//! a base point of order 7 and a fixed nonce.
use vstd::prelude::*;
use crate::euclid::trem;
use crate::modular::{
    inv_value, lemma_mod_ops_range, lemma_reduced_product, lemma_reduced_times_small,
    lemma_small_scaled, lemma_trem_congruent, modulus_ok, point_ok, small, spec_mod_add,
    spec_mod_mul, spec_mod_sub, spec_third_point, third_point,
};
pub use crate::modular::{mod_add, mod_inv, mod_mul, mod_sub};

verus! {

/// The modulus of the field.
pub const P: i64 = 5;

/// The curve parameter a in y^2 = x^3 + a x + b.
pub const A: i64 = 2;

/// The curve parameter b in y^2 = x^3 + a x + b.
pub const B: i64 = 1;

/// The order of the base point.
pub const N: i64 = 7;

/// The x-coordinate of the base point G.
pub const GX: i64 = 1;

/// The y-coordinate of the base point G.
pub const GY: i64 = 2;

/// The slope of the line through two points (or of the tangent when they
/// share an x-coordinate), as `point_add` computes it.
pub open spec fn spec_slope(x1: int, y1: int, x2: int, y2: int, a: int, p: int) -> int {
    if x1 == x2 {
        spec_mod_mul(
            spec_mod_add(spec_mod_mul(3, spec_mod_mul(x1, x1, p), p), a, p),
            inv_value(spec_mod_mul(2, y1, p), p),
            p,
        )
    } else {
        spec_mod_mul(spec_mod_sub(y2, y1, p), inv_value(spec_mod_sub(x2, x1, p), p), p)
    }
}

/// The chord-and-tangent sum that `point_add` computes; `None` is the point
/// at infinity.
pub open spec fn spec_point_add(p1: Option<(i64, i64)>, p2: Option<(i64, i64)>, a: int, p: int) -> Option<
    (i64, i64),
> {
    match (p1, p2) {
        (None, q) => q,
        (q, None) => q,
        (Some((x1, y1)), Some((x2, y2))) => {
            if x1 == x2 && spec_mod_add(y1 as int, y2 as int, p) == 0 {
                None
            } else {
                let m = spec_slope(x1 as int, y1 as int, x2 as int, y2 as int, a, p);
                Some(spec_third_point(m, x1 as int, y1 as int, x2 as int, p))
            }
        },
    }
}

/// `k` copies of `pt` added up from the left; no copies for `k <= 0`.
pub open spec fn spec_scalar_mul(k: int, pt: Option<(i64, i64)>, a: int, p: int) -> Option<(i64, i64)>
    decreases k,
{
    if k <= 0 {
        None
    } else {
        spec_point_add(spec_scalar_mul(k - 1, pt, a, p), pt, a, p)
    }
}

/// The slope `point_add` uses for two points that are not opposite.
fn slope(x1: i64, y1: i64, x2: i64, y2: i64, a: i64, p: i64) -> (m: i64)
    requires
        modulus_ok(p as int),
        small(x1 as int),
        small(y1 as int),
        small(x2 as int),
        small(y2 as int),
    ensures
        m == spec_slope(x1 as int, y1 as int, x2 as int, y2 as int, a as int, p as int),
        -p < m < p,
{
    let ghost pp = p as int;
    if x1 == x2 {
        proof {
            lemma_trem_congruent(x1 as int, pp);
            lemma_reduced_times_small(trem(x1 as int, pp), x1 as int, pp);
        }
        let sq = mod_mul(x1, x1, p);
        proof {
            lemma_mod_ops_range(x1 as int, x1 as int, pp);
            lemma_small_scaled(3, sq as int, pp);
            lemma_small_scaled(2, y1 as int, pp);
            lemma_trem_congruent(a as int, pp);
        }
        let t = mod_mul(3, sq, p);
        proof {
            lemma_mod_ops_range(3, sq as int, pp);
            lemma_trem_congruent(t as int, pp);
        }
        let num = mod_add(t, a, p);
        let den = mod_mul(2, y1, p);
        let inv = mod_inv(den, p);
        proof {
            lemma_mod_ops_range(t as int, a as int, pp);
            lemma_trem_congruent(num as int, pp);
            lemma_reduced_product(trem(num as int, pp), inv as int, pp);
            lemma_mod_ops_range(num as int, inv as int, pp);
        }
        mod_mul(num, inv, p)
    } else {
        proof {
            lemma_mod_ops_range(y2 as int, y1 as int, pp);
            lemma_mod_ops_range(x2 as int, x1 as int, pp);
            lemma_trem_congruent(y2 as int, pp);
            lemma_trem_congruent(y1 as int, pp);
            lemma_trem_congruent(x2 as int, pp);
            lemma_trem_congruent(x1 as int, pp);
        }
        let num = mod_sub(y2, y1, p);
        let den = mod_sub(x2, x1, p);
        let inv = mod_inv(den, p);
        proof {
            lemma_trem_congruent(num as int, pp);
            lemma_reduced_product(trem(num as int, pp), inv as int, pp);
            lemma_mod_ops_range(num as int, inv as int, pp);
        }
        mod_mul(num, inv, p)
    }
}

/// Adds two points of the curve y^2 = x^3 + a x + b modulo `p`.
pub fn point_add(p1: Option<(i64, i64)>, p2: Option<(i64, i64)>, a: i64, p: i64) -> (r: Option<
    (i64, i64),
>)
    requires
        modulus_ok(p as int),
        point_ok(p1),
        point_ok(p2),
    ensures
        r == spec_point_add(p1, p2, a as int, p as int),
        point_ok(r),
{
    match (p1, p2) {
        (None, q) => q,
        (q, None) => q,
        (Some((x1, y1)), Some((x2, y2))) => {
            proof {
                lemma_trem_congruent(y1 as int, p as int);
                lemma_trem_congruent(y2 as int, p as int);
            }
            if x1 == x2 && mod_add(y1, y2, p) == 0 {
                return None;
            }
            let m = slope(x1, y1, x2, y2, a, p);
            Some(third_point(m, x1, y1, x2, p))
        },
    }
}

/// Adds `p` to itself `k` times, starting from the point at infinity.
pub fn scalar_mul(k: i64, p: Option<(i64, i64)>, a: i64, p_mod: i64) -> (r: Option<(i64, i64)>)
    requires
        modulus_ok(p_mod as int),
        point_ok(p),
    ensures
        r == spec_scalar_mul(k as int, p, a as int, p_mod as int),
        point_ok(r),
{
    let mut result: Option<(i64, i64)> = None;
    let temp = p;
    let mut i: i64 = 0;
    while i < k
        invariant
            modulus_ok(p_mod as int),
            point_ok(p),
            temp == p,
            0 <= i,
            i <= k || i == 0,
            result == spec_scalar_mul(i as int, p, a as int, p_mod as int),
            point_ok(result),
        decreases k - i,
    {
        result = point_add(result, temp, a, p_mod);
        i = i + 1;
    }
    result
}


proof fn lemma_inverse_of_four()
    ensures
        inv_value(4, 5) == 4,
{
    assert(trem(4, 5) == 4);
    assert(crate::euclid::tdiv(5, 4) == 1);
    assert(crate::euclid::tdiv(4, 1) == 4);
    assert(crate::euclid::ext_euclid(1, 0, -1, 5) == (1int, -1int));
    assert(crate::euclid::ext_euclid(4, 1, 1, -1) == (1int, -1int));
    assert(crate::euclid::ext_euclid(5, 4, 0, 1) == (1int, -1int));
    assert(trem(-1, 5) == -1);
}

proof fn lemma_small_products()
    ensures
        spec_mod_mul(1, 1, 5) == 1,
        spec_mod_mul(3, 1, 5) == 3,
        spec_mod_mul(2, 2, 5) == 4,
        spec_mod_mul(0, 0, 5) == 0,
        spec_mod_mul(0, 3, 5) == 0,
        spec_mod_mul(0, 4, 5) == 0,
{
    assert(trem(3, 5) == 3);
    assert(trem(3int * 1, 5) == 3);
    assert(trem(0, 5) == 0);
    assert(0int * 3 == 0);
    assert(0int * 4 == 0);
    assert(0int * 0 == 0);
}

/// [2]G, the nonce point of every signature.
pub proof fn lemma_nonce_point()
    ensures
        spec_scalar_mul(2, Some((GX, GY)), A as int, P as int) == Some((3i64, 3i64)),
{
    assert(spec_scalar_mul(0, Some((GX, GY)), A as int, P as int) == None::<(i64, i64)>);
    assert(spec_scalar_mul(1, Some((GX, GY)), A as int, P as int) == Some((GX, GY)));
    lemma_inverse_of_four();
    lemma_small_products();
    assert(spec_mod_add(3, 2, 5) == 0);
    assert(spec_slope(1, 2, 1, 2, 2, 5) == 0);
    assert(spec_mod_add(2, 2, 5) == 4);
    assert(spec_mod_sub(0, 1, 5) == 4);
    assert(spec_mod_sub(4, 1, 5) == 3);
    assert(spec_mod_sub(1, 3, 5) == 3);
    assert(spec_mod_sub(0, 2, 5) == 3);
    assert(spec_third_point(0, 1, 2, 1, 5) == (3i64, 3i64));
}

/// The `s` half of the signature of `m` under secret key `d`.
pub open spec fn spec_sign_s(m: int, d: int) -> int {
    let e = trem(m, N as int);
    let r = trem(3, N as int);
    spec_mod_mul(inv_value(2, N as int), spec_mod_add(e, spec_mod_mul(d, r, N as int), N as int), N as int)
}

/// Signs `m` with secret key `d` and the fixed nonce 2: `r` is the
/// x-coordinate of [2]G modulo N and `s = k^-1 (e + d r) mod N`. A zero `s`
/// would need another nonce, so such keys and messages are not accepted.
pub fn sign(m: i64, d: i64) -> (sig: (i64, i64))
    requires
        spec_sign_s(m as int, d as int) != 0,
    ensures
        sig.0 == trem(3, N as int),
        sig.1 == spec_sign_s(m as int, d as int),
{
    let k: i64 = 2;
    let e = m % N;
    proof {
        lemma_nonce_point();
    }
    let big_r = scalar_mul(k, Some((GX, GY)), A, P);
    let rp = match big_r {
        Some(pt) => pt,
        None => (0, 0),
    };
    let r = rp.0 % N;
    let ghost nn = N as int;
    proof {
        lemma_trem_congruent(m as int, nn);
        lemma_trem_congruent(d as int, nn);
        lemma_reduced_product(trem(d as int, nn), r as int, nn);
    }
    let dr = mod_mul(d, r, N);
    proof {
        lemma_mod_ops_range(d as int, r as int, nn);
        lemma_trem_congruent(e as int, nn);
        lemma_trem_congruent(dr as int, nn);
    }
    let sum = mod_add(e, dr, N);
    let kinv = mod_inv(k, N);
    proof {
        lemma_trem_congruent(kinv as int, nn);
        lemma_mod_ops_range(e as int, dr as int, nn);
        lemma_reduced_product(trem(kinv as int, nn), sum as int, nn);
    }
    let s = mod_mul(kinv, sum, N);
    (r, s)
}

/// The point u1 G + u2 Q that `verify` compares against `r`.
pub open spec fn spec_verify_point(m: int, sig: (i64, i64), q: Option<(i64, i64)>) -> Option<(i64, i64)> {
    let e = trem(m, N as int);
    let w = inv_value(sig.1 as int, N as int);
    let u1 = spec_mod_mul(e, w, N as int);
    let u2 = spec_mod_mul(sig.0 as int, w, N as int);
    spec_point_add(
        spec_scalar_mul(u1, Some((GX, GY)), A as int, P as int),
        spec_scalar_mul(u2, q, A as int, P as int),
        A as int,
        P as int,
    )
}

/// Checks a signature: with w = s^-1 mod N, u1 = e w and u2 = r w, the point
/// u1 G + u2 Q must exist and have x-coordinate `r` modulo N.
pub fn verify(m: i64, sig: (i64, i64), q: Option<(i64, i64)>) -> (ok: bool)
    requires
        point_ok(q),
    ensures
        ok == match spec_verify_point(m as int, sig, q) {
            Some(u) => trem(u.0 as int, N as int) == sig.0,
            None => false,
        },
{
    let (r, s) = sig;
    let ghost nn = N as int;
    let e = m % N;
    let w = mod_inv(s, N);
    proof {
        lemma_trem_congruent(m as int, nn);
        lemma_trem_congruent(e as int, nn);
        lemma_trem_congruent(r as int, nn);
        lemma_reduced_product(trem(e as int, nn), w as int, nn);
        lemma_reduced_times_small(trem(r as int, nn), w as int, nn);
    }
    let u1 = mod_mul(e, w, N);
    let u2 = mod_mul(r, w, N);
    let g_part = scalar_mul(u1, Some((GX, GY)), A, P);
    let q_part = scalar_mul(u2, q, A, P);
    let big_u = point_add(g_part, q_part, A, P);
    match big_u {
        Some(u) => u.0 % N == r,
        None => false,
    }
}

proof fn lemma_inverses_mod_5()
    ensures
        inv_value(1, 5) == 1,
        inv_value(2, 5) == 3,
        inv_value(3, 5) == 2,
        inv_value(4, 5) == 4,
{
    reveal_with_fuel(crate::euclid::ext_euclid, 5);
}

proof fn lemma_inverses_mod_7()
    ensures
        inv_value(1, 7) == 1,
        inv_value(2, 7) == 4,
        inv_value(3, 7) == 5,
        inv_value(4, 7) == 2,
        inv_value(5, 7) == 3,
        inv_value(6, 7) == 6,
{
    reveal_with_fuel(crate::euclid::ext_euclid, 5);
    assert(crate::euclid::tdiv(7, 3) == 2);
    assert(crate::euclid::ext_euclid(3, 1, 1, -2) == (1int, -2int));
    assert(crate::euclid::ext_euclid(7, 3, 0, 1) == (1int, -2int));
}

/// The multiples of G: G, (3, 3), (0, 1), (0, 4), (3, 2), (1, 3).
proof fn lemma_multiples_of_g()
    ensures
        spec_scalar_mul(1, Some((GX, GY)), A as int, P as int) == Some((1i64, 2i64)),
        spec_scalar_mul(2, Some((GX, GY)), A as int, P as int) == Some((3i64, 3i64)),
        spec_scalar_mul(3, Some((GX, GY)), A as int, P as int) == Some((0i64, 1i64)),
        spec_scalar_mul(4, Some((GX, GY)), A as int, P as int) == Some((0i64, 4i64)),
        spec_scalar_mul(5, Some((GX, GY)), A as int, P as int) == Some((3i64, 2i64)),
        spec_scalar_mul(6, Some((GX, GY)), A as int, P as int) == Some((1i64, 3i64)),
{
    lemma_inverses_mod_5();
    let g = Some((GX, GY));
    assert(spec_scalar_mul(0, g, A as int, P as int) == None::<(i64, i64)>);
    assert(spec_scalar_mul(1, g, A as int, P as int) == Some((1i64, 2i64)));
    assert(spec_slope(1, 2, 1, 2, 2, 5) == 0);
    assert(spec_scalar_mul(2, g, A as int, P as int) == Some((3i64, 3i64)));
    assert(spec_slope(3, 3, 1, 2, 2, 5) == 3);
    assert(spec_scalar_mul(3, g, A as int, P as int) == Some((0i64, 1i64)));
    assert(spec_slope(0, 1, 1, 2, 2, 5) == 1);
    assert(spec_scalar_mul(4, g, A as int, P as int) == Some((0i64, 4i64)));
    assert(spec_slope(0, 4, 1, 2, 2, 5) == 3);
    assert(spec_scalar_mul(5, g, A as int, P as int) == Some((3i64, 2i64)));
    assert(spec_slope(3, 2, 1, 2, 2, 5) == 0);
    assert(spec_scalar_mul(6, g, A as int, P as int) == Some((1i64, 3i64)));
}

/// What `verify` checks of the signature the demo key `d = 1` makes for a
/// message whose hash is `e`, under the public key `[1]G`.
pub open spec fn demo_signature_checks(e: int) -> bool {
    let r = trem(3, N as int);
    let s = spec_mod_mul(inv_value(2, N as int), spec_mod_add(e, spec_mod_mul(1, r, N as int), N as int), N as int);
    let w = inv_value(s, N as int);
    let u1 = spec_mod_mul(e, w, N as int);
    let u2 = spec_mod_mul(r, w, N as int);
    match spec_point_add(
        spec_scalar_mul(u1, Some((GX, GY)), A as int, P as int),
        spec_scalar_mul(u2, Some((GX, GY)), A as int, P as int),
        A as int,
        P as int,
    ) {
        Some(u) => trem(u.0 as int, N as int) == r,
        None => false,
    }
}

proof fn lemma_demo_case(e: int)
    requires
        0 <= e < 7,
        e != 4,
    ensures
        demo_signature_checks(e),
{
    lemma_inverses_mod_5();
    lemma_inverses_mod_7();
    lemma_multiples_of_g();
    assert(trem(3, N as int) == 3);
    let g = Some((GX, GY));
    if e == 0 {
        assert(spec_scalar_mul(0, g, A as int, P as int) == None::<(i64, i64)>);
    } else if e == 1 {
        assert(spec_slope(0, 4, 3, 2, 2, 5) == 1);
    } else if e == 2 {
        assert(spec_slope(3, 2, 0, 4, 2, 5) == 1);
    } else if e == 3 {
        assert(spec_slope(1, 2, 1, 2, 2, 5) == 0);
    } else if e == 5 {
        assert(spec_slope(0, 1, 1, 3, 2, 5) == 2);
    } else {
        assert(spec_slope(1, 3, 0, 1, 2, 5) == 2);
    }
}

/// A signature made with the demo key `d = 1` verifies under its public
/// key `[1]G`: for every message `m >= 0` the key can sign (those whose `s`
/// is not zero), the point `u1 G + u2 Q` exists and has x-coordinate `r`.
pub proof fn lemma_demo_signature_verifies(m: i64)
    requires
        m >= 0,
        spec_sign_s(m as int, 1) != 0,
    ensures
        match spec_verify_point(
            m as int,
            (trem(3, N as int) as i64, spec_sign_s(m as int, 1) as i64),
            Some((GX, GY)),
        ) {
            Some(u) => trem(u.0 as int, N as int) == trem(3, N as int),
            None => false,
        },
{
    let e = trem(m as int, N as int);
    assert(0 <= e < 7);
    if e == 4 {
        lemma_demo_sign_nonzero(e);
        assert(false);
    }
    lemma_demo_case(e);
    lemma_demo_sign_range(e);
}

proof fn lemma_demo_sign_nonzero(e: int)
    requires
        e == 4,
    ensures
        spec_mod_mul(inv_value(2, N as int), spec_mod_add(e, spec_mod_mul(1, trem(3, N as int), N as int), N as int), N as int) == 0,
{
    lemma_inverses_mod_7();
    assert(trem(3, 7) == 3);
    assert(spec_mod_mul(1, 3, 7) == 3);
    assert(spec_mod_add(4, 3, 7) == 0);
    assert(spec_mod_mul(4, 0, 7) == 0);
}

proof fn lemma_demo_sign_range(e: int)
    ensures
        -7 < spec_mod_mul(inv_value(2, N as int), spec_mod_add(e, spec_mod_mul(1, trem(3, N as int), N as int), N as int), N as int) < 7,
        -7 < trem(3, N as int) < 7,
{
    lemma_mod_ops_range(inv_value(2, N as int), spec_mod_add(e, spec_mod_mul(1, trem(3, N as int), N as int), N as int), N as int);
}


} // verus!
