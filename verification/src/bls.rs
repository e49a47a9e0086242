//! A teaching-sized BLS-style signature over the curve y^2 = x^3 + 4x modulo
//! 5, with hashing to the curve by trial square roots and a pairing that
//! multiplies x-coordinates.
use vstd::prelude::*;
use crate::euclid::trem;
use crate::modular::{
    lemma_mod_ops_range, lemma_reduced_product, lemma_reduced_times_small, lemma_small_scaled, lemma_trem_congruent,
    modulus_ok, point_ok, small, spec_inv_strict, spec_mod_add, spec_mod_mul, spec_mod_sub,
    spec_third_point, third_point,
};
pub use crate::modular::{mod_add, mod_mul, mod_sub};
pub use crate::modular::mod_inv_strict as mod_inv;

verus! {

/// The modulus of the field.
pub const P: i64 = 5;

/// The order of the base point.
pub const N: i64 = 3;

/// The x-coordinate of the base point G.
pub const GX: i64 = 1;

/// The y-coordinate of the base point G.
pub const GY: i64 = 2;

/// The curve parameter a in y^2 = x^3 + a x + b.
pub const A: i64 = 4;

/// The curve parameter b in y^2 = x^3 + a x + b.
pub const B: i64 = 0;

/// `y` is a square root of `y2` in `[0, p)` and no smaller one exists.
pub open spec fn is_least_root(y: int, y2: int, p: int) -> bool {
    &&& 0 <= y < p
    &&& spec_mod_mul(y, y, p) == y2
    &&& forall|z: int| 0 <= z < y ==> spec_mod_mul(z, z, p) != y2
}

/// The least square root of `y2` in `[0, p)`, if there is one.
pub open spec fn spec_least_root(y2: int, p: int) -> Option<i64> {
    if exists|y: int| is_least_root(y, y2, p) {
        Some((choose|y: int| is_least_root(y, y2, p)) as i64)
    } else {
        None
    }
}

proof fn lemma_least_root_unique(y: int, y2: int, p: int)
    requires
        is_least_root(y, y2, p),
    ensures
        spec_least_root(y2, p) == Some(y as i64),
{
    let c = choose|c: int| is_least_root(c, y2, p);
    assert(is_least_root(c, y2, p));
    if c < y {
        assert(spec_mod_mul(c, c, p) != y2);
    } else if y < c {
        assert(spec_mod_mul(y, y, p) != y2);
    }
}

/// Searches `[0, p)` in increasing order for a square root of `y2`.
pub fn sqrt_mod(y2: i64, p: i64) -> (r: Option<i64>)
    requires
        modulus_ok(p as int),
    ensures
        r == spec_least_root(y2 as int, p as int),
        r is None <==> forall|y: int| 0 <= y < p ==> spec_mod_mul(y, y, p as int) != y2,
        r matches Some(y) ==> is_least_root(y as int, y2 as int, p as int),
{
    let mut y: i64 = 0;
    while y < p
        invariant
            modulus_ok(p as int),
            0 <= y <= p,
            forall|z: int| 0 <= z < y ==> spec_mod_mul(z, z, p as int) != y2,
        decreases p - y,
    {
        proof {
            lemma_trem_congruent(y as int, p as int);
            lemma_reduced_product(trem(y as int, p as int), y as int, p as int);
        }
        if mod_mul(y, y, p) == y2 {
            assert(spec_mod_mul(y as int, y as int, p as int) == y2);
            proof {
                lemma_least_root_unique(y as int, y2 as int, p as int);
            }
            return Some(y);
        }
        y = y + 1;
    }
    proof {
        if exists|z: int| is_least_root(z, y2 as int, p as int) {
            let z = choose|z: int| is_least_root(z, y2 as int, p as int);
            assert(spec_mod_mul(z, z, p as int) == y2);
        }
    }
    None
}

/// The right-hand side x^3 + A x + B of the curve equation, reduced.
pub open spec fn curve_rhs(x: int, p: int) -> int {
    spec_mod_add(
        spec_mod_add(spec_mod_mul(x, spec_mod_mul(x, x, p), p), spec_mod_mul(A as int, x, p), p),
        B as int,
        p,
    )
}

/// The curve point `hash_to_curve` maps a message to.
pub open spec fn spec_hash_to_curve(m: int, p: int) -> Option<(i64, i64)> {
    let x = trem(m, p);
    match spec_least_root(curve_rhs(x, p), p) {
        Some(y) => Some((x as i64, y)),
        None => None,
    }
}

/// Maps a message to the curve point with x-coordinate `m % p` and the least
/// square root of the curve equation as y-coordinate, if there is one.
pub fn hash_to_curve(m: i64, p: i64) -> (r: Option<(i64, i64)>)
    requires
        modulus_ok(p as int),
    ensures
        r == spec_hash_to_curve(m as int, p as int),
        ({
            let x = trem(m as int, p as int);
            let y2 = curve_rhs(x, p as int);
            &&& r is None <==> forall|y: int| 0 <= y < p ==> spec_mod_mul(y, y, p as int) != y2
            &&& r matches Some((rx, ry)) ==> rx == x && is_least_root(ry as int, y2, p as int)
        }),
        point_ok(r),
{
    let x = m % p;
    proof {
        lemma_trem_congruent(m as int, p as int);
        lemma_reduced_product(trem(x as int, p as int), x as int, p as int);
        lemma_trem_congruent(x as int, p as int);
    }
    let x2 = mod_mul(x, x, p);
    proof {
        lemma_mod_ops_range(x as int, x as int, p as int);
        lemma_reduced_product(trem(x as int, p as int), x2 as int, p as int);
    }
    let x3 = mod_mul(x, x2, p);
    proof {
        lemma_small_scaled(4, x as int, p as int);
    }
    let ax = mod_mul(A, x, p);
    proof {
        lemma_mod_ops_range(x as int, x2 as int, p as int);
        lemma_mod_ops_range(A as int, x as int, p as int);
        lemma_trem_congruent(x3 as int, p as int);
        lemma_trem_congruent(ax as int, p as int);
    }
    let s = mod_add(x3, ax, p);
    proof {
        lemma_mod_ops_range(x3 as int, ax as int, p as int);
        lemma_trem_congruent(s as int, p as int);
        lemma_trem_congruent(B as int, p as int);
    }
    let y2 = mod_add(s, B, p);
    match sqrt_mod(y2, p) {
        Some(y) => Some((x, y)),
        None => None,
    }
}


/// The slope of the line through two points (or of the tangent when they
/// share an x-coordinate), as `point_add` computes it.
pub open spec fn spec_slope(x1: int, y1: int, x2: int, y2: int, a: int, p: int) -> int {
    if x1 == x2 {
        spec_mod_mul(
            spec_mod_add(spec_mod_mul(3, spec_mod_mul(x1, x1, p), p), a, p),
            spec_inv_strict(spec_mod_mul(2, y1, p), p),
            p,
        )
    } else {
        spec_mod_mul(spec_mod_sub(y2, y1, p), spec_inv_strict(spec_mod_sub(x2, x1, p), p), p)
    }
}

/// The chord-and-tangent sum that `point_add` computes; `None` is the point
/// at infinity.
pub open spec fn spec_point_add(p1: Option<(i64, i64)>, p2: Option<(i64, i64)>, a: int, p: int) -> Option<
    (i64, i64),
> {
    match (p1, p2) {
        (None, q) => q,
        (q, None) => q,
        (Some((x1, y1)), Some((x2, y2))) => {
            if x1 == x2 && spec_mod_add(y1 as int, y2 as int, p) == 0 {
                None
            } else {
                let m = spec_slope(x1 as int, y1 as int, x2 as int, y2 as int, a, p);
                Some(spec_third_point(m, x1 as int, y1 as int, x2 as int, p))
            }
        },
    }
}

/// `k` copies of `pt` added up from the left; no copies for `k <= 0`.
pub open spec fn spec_scalar_mul(k: int, pt: Option<(i64, i64)>, a: int, p: int) -> Option<(i64, i64)>
    decreases k,
{
    if k <= 0 {
        None
    } else {
        spec_point_add(spec_scalar_mul(k - 1, pt, a, p), pt, a, p)
    }
}

/// The slope `point_add` uses for two points that are not opposite.
fn slope(x1: i64, y1: i64, x2: i64, y2: i64, a: i64, p: i64) -> (m: i64)
    requires
        modulus_ok(p as int),
        small(x1 as int),
        small(y1 as int),
        small(x2 as int),
        small(y2 as int),
    ensures
        m == spec_slope(x1 as int, y1 as int, x2 as int, y2 as int, a as int, p as int),
        -p < m < p,
{
    let ghost pp = p as int;
    if x1 == x2 {
        proof {
            lemma_trem_congruent(x1 as int, pp);
            lemma_reduced_times_small(trem(x1 as int, pp), x1 as int, pp);
        }
        let sq = mod_mul(x1, x1, p);
        proof {
            lemma_mod_ops_range(x1 as int, x1 as int, pp);
            lemma_small_scaled(3, sq as int, pp);
            lemma_small_scaled(2, y1 as int, pp);
            lemma_trem_congruent(a as int, pp);
        }
        let t = mod_mul(3, sq, p);
        proof {
            lemma_mod_ops_range(3, sq as int, pp);
            lemma_trem_congruent(t as int, pp);
        }
        let num = mod_add(t, a, p);
        let den = mod_mul(2, y1, p);
        let inv = mod_inv(den, p);
        proof {
            lemma_mod_ops_range(t as int, a as int, pp);
            lemma_trem_congruent(num as int, pp);
            lemma_reduced_product(trem(num as int, pp), inv as int, pp);
            lemma_mod_ops_range(num as int, inv as int, pp);
        }
        mod_mul(num, inv, p)
    } else {
        proof {
            lemma_mod_ops_range(y2 as int, y1 as int, pp);
            lemma_mod_ops_range(x2 as int, x1 as int, pp);
            lemma_trem_congruent(y2 as int, pp);
            lemma_trem_congruent(y1 as int, pp);
            lemma_trem_congruent(x2 as int, pp);
            lemma_trem_congruent(x1 as int, pp);
        }
        let num = mod_sub(y2, y1, p);
        let den = mod_sub(x2, x1, p);
        let inv = mod_inv(den, p);
        proof {
            lemma_trem_congruent(num as int, pp);
            lemma_reduced_product(trem(num as int, pp), inv as int, pp);
            lemma_mod_ops_range(num as int, inv as int, pp);
        }
        mod_mul(num, inv, p)
    }
}

/// Adds two points of the curve y^2 = x^3 + a x + b modulo `p`.
pub fn point_add(p1: Option<(i64, i64)>, p2: Option<(i64, i64)>, a: i64, p: i64) -> (r: Option<
    (i64, i64),
>)
    requires
        modulus_ok(p as int),
        point_ok(p1),
        point_ok(p2),
    ensures
        r == spec_point_add(p1, p2, a as int, p as int),
        point_ok(r),
{
    match (p1, p2) {
        (None, q) => q,
        (q, None) => q,
        (Some((x1, y1)), Some((x2, y2))) => {
            proof {
                lemma_trem_congruent(y1 as int, p as int);
                lemma_trem_congruent(y2 as int, p as int);
            }
            if x1 == x2 && mod_add(y1, y2, p) == 0 {
                return None;
            }
            let m = slope(x1, y1, x2, y2, a, p);
            Some(third_point(m, x1, y1, x2, p))
        },
    }
}

/// Adds `p` to itself `k` times, starting from the point at infinity.
pub fn scalar_mul(k: i64, p: Option<(i64, i64)>, a: i64, p_mod: i64) -> (r: Option<(i64, i64)>)
    requires
        modulus_ok(p_mod as int),
        point_ok(p),
    ensures
        r == spec_scalar_mul(k as int, p, a as int, p_mod as int),
        point_ok(r),
{
    let mut result: Option<(i64, i64)> = None;
    let temp = p;
    let mut i: i64 = 0;
    while i < k
        invariant
            modulus_ok(p_mod as int),
            point_ok(p),
            temp == p,
            0 <= i,
            i <= k || i == 0,
            result == spec_scalar_mul(i as int, p, a as int, p_mod as int),
            point_ok(result),
        decreases k - i,
    {
        result = point_add(result, temp, a, p_mod);
        i = i + 1;
    }
    result
}

/// The key pair: secret key 1 and public key [1]G.
pub fn keygen() -> (r: (i64, Option<(i64, i64)>))
    ensures
        r.0 == 1,
        r.1 == spec_scalar_mul(1, Some((GX, GY)), A as int, P as int),
        r.1 == Some((GX, GY)),
{
    let sk: i64 = 1;
    let pk = scalar_mul(sk, Some((GX, GY)), A, P);
    assert(spec_scalar_mul(0, Some((GX, GY)), A as int, P as int) == None::<(i64, i64)>);
    (sk, pk)
}

/// Signs `m` as [sk]H(m), or `None` when `m` does not hash to the curve.
pub fn sign(m: i64, sk: i64) -> (r: Option<(i64, i64)>)
    ensures
        ({
            let h = spec_hash_to_curve(m as int, P as int);
            r == match h {
                Some(pt) => spec_scalar_mul(sk as int, Some(pt), A as int, P as int),
                None => None,
            }
        }),
        point_ok(r),
{
    let h = hash_to_curve(m, P);
    match h {
        Some(pt) => scalar_mul(sk, Some(pt), A, P),
        None => None,
    }
}


/// The stand-in pairing: the product of the two x-coordinates modulo `p_mod`.
pub fn pairing(p: (i64, i64), q: (i64, i64), p_mod: i64) -> (r: i64)
    requires
        p_mod > 0,
        crate::modular::fits_i64(trem(p.0 as int, p_mod as int) * q.0),
    ensures
        r == spec_mod_mul(p.0 as int, q.0 as int, p_mod as int),
{
    proof {
        lemma_trem_congruent(trem(p.0 as int, p_mod as int) * q.0, p_mod as int);
    }
    mod_mul(p.0, q.0, p_mod)
}

/// Whether e(G, sig) equals e(pk, H(m)) under the stand-in pairing; false
/// when a point is missing or `m` does not hash to the curve.
pub fn verify(m: i64, sig: Option<(i64, i64)>, pk: Option<(i64, i64)>) -> (r: bool)
    requires
        point_ok(sig),
        point_ok(pk),
    ensures
        r == match (sig, pk, spec_hash_to_curve(m as int, P as int)) {
            (Some(s), Some(q), Some(h)) => spec_mod_mul(GX as int, s.0 as int, P as int)
                == spec_mod_mul(q.0 as int, h.0 as int, P as int),
            _ => false,
        },
{
    match (sig, pk, hash_to_curve(m, P)) {
        (Some(s), Some(q), Some(h)) => {
            proof {
                lemma_trem_congruent(GX as int, P as int);
                lemma_trem_congruent(q.0 as int, P as int);
                lemma_reduced_product(trem(q.0 as int, P as int), h.0 as int, P as int);
                lemma_small_scaled(1, s.0 as int, P as int);
            }
            let left = pairing((GX, GY), s, P);
            let right = pairing(q, h, P);
            left == right
        },
        _ => false,
    }
}

/// A signature made with the generated key verifies under it: for every
/// message that hashes to the curve, `[1]H(m)` is `H(m)` itself, and the
/// stand-in pairings e(G, S) and e(pk, H(m)) agree.
pub proof fn lemma_signature_verifies(m: i64)
    requires
        spec_hash_to_curve(m as int, P as int) is Some,
    ensures
        ({
            let h = spec_hash_to_curve(m as int, P as int)->Some_0;
            &&& spec_scalar_mul(1, Some(h), A as int, P as int) == Some(h)
            &&& match (spec_scalar_mul(1, Some(h), A as int, P as int), Some((GX, GY)), Some(h)) {
                (Some(s), Some(q), Some(hh)) => spec_mod_mul(GX as int, s.0 as int, P as int) == spec_mod_mul(
                    q.0 as int,
                    hh.0 as int,
                    P as int,
                ),
                _ => false,
            }
        }),
{
    let h = spec_hash_to_curve(m as int, P as int)->Some_0;
    assert(spec_scalar_mul(0, Some(h), A as int, P as int) == None::<(i64, i64)>);
}

} // verus!
