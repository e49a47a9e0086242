//! A teaching-sized pairing-free "proof" of a sum over the curve
//! y^2 = x^3 + 1 modulo 17: a trusted setup publishes [s]G and G, a prover
//! shows [h][s]G for the hash h of the summands, and the verifier recomputes
//! it from G.
use vstd::prelude::*;
use crate::euclid::trem;
use crate::modular::{
    fits_i64, lemma_mod_ops_range, lemma_reduced_product, lemma_reduced_times_small,
    lemma_small_scaled, lemma_trem_congruent, modulus_ok, point_ok, small, spec_inv_strict,
    spec_mod_add, spec_mod_mul, spec_mod_sub, spec_third_point, third_point,
};
pub use crate::modular::{mod_add, mod_mul, mod_sub};
pub use crate::modular::mod_inv_strict as mod_inv;

verus! {

/// The modulus of the field.
pub const P: i64 = 17;

/// The scalar modulus: scalars are reduced modulo N before use.
pub const N: i64 = 3;

/// The x-coordinate of the base point G.
pub const GX: i64 = 1;

/// The y-coordinate of the base point G.
pub const GY: i64 = 2;

/// The curve parameter a in y^2 = x^3 + a x + b.
pub const A: i64 = 0;

/// The curve parameter b in y^2 = x^3 + a x + b.
pub const B: i64 = 1;

/// The secret of the trusted setup.
pub const SECRET: i64 = 2;

/// The slope of the line through two points (or of the tangent when they
/// share an x-coordinate), as `point_add` computes it.
pub open spec fn spec_slope(x1: int, y1: int, x2: int, y2: int, a: int, p: int) -> int {
    if x1 == x2 {
        spec_mod_mul(
            spec_mod_add(spec_mod_mul(3, spec_mod_mul(x1, x1, p), p), a, p),
            spec_inv_strict(spec_mod_mul(2, y1, p), p),
            p,
        )
    } else {
        spec_mod_mul(spec_mod_sub(y2, y1, p), spec_inv_strict(spec_mod_sub(x2, x1, p), p), p)
    }
}

/// The chord-and-tangent sum that `point_add` computes; `None` is the point
/// at infinity.
pub open spec fn spec_point_add(p1: Option<(i64, i64)>, p2: Option<(i64, i64)>, a: int, p: int) -> Option<
    (i64, i64),
> {
    match (p1, p2) {
        (None, q) => q,
        (q, None) => q,
        (Some((x1, y1)), Some((x2, y2))) => {
            if x1 == x2 && spec_mod_add(y1 as int, y2 as int, p) == 0 {
                None
            } else {
                let m = spec_slope(x1 as int, y1 as int, x2 as int, y2 as int, a, p);
                Some(spec_third_point(m, x1 as int, y1 as int, x2 as int, p))
            }
        },
    }
}

/// The slope `point_add` uses for two points that are not opposite.
fn slope(x1: i64, y1: i64, x2: i64, y2: i64, a: i64, p: i64) -> (m: i64)
    requires
        modulus_ok(p as int),
        small(x1 as int),
        small(y1 as int),
        small(x2 as int),
        small(y2 as int),
    ensures
        m == spec_slope(x1 as int, y1 as int, x2 as int, y2 as int, a as int, p as int),
        -p < m < p,
{
    let ghost pp = p as int;
    if x1 == x2 {
        proof {
            lemma_trem_congruent(x1 as int, pp);
            lemma_reduced_times_small(trem(x1 as int, pp), x1 as int, pp);
        }
        let sq = mod_mul(x1, x1, p);
        proof {
            lemma_mod_ops_range(x1 as int, x1 as int, pp);
            lemma_small_scaled(3, sq as int, pp);
            lemma_small_scaled(2, y1 as int, pp);
            lemma_trem_congruent(a as int, pp);
        }
        let t = mod_mul(3, sq, p);
        proof {
            lemma_mod_ops_range(3, sq as int, pp);
            lemma_trem_congruent(t as int, pp);
        }
        let num = mod_add(t, a, p);
        let den = mod_mul(2, y1, p);
        let inv = mod_inv(den, p);
        proof {
            lemma_mod_ops_range(t as int, a as int, pp);
            lemma_trem_congruent(num as int, pp);
            lemma_reduced_product(trem(num as int, pp), inv as int, pp);
            lemma_mod_ops_range(num as int, inv as int, pp);
        }
        mod_mul(num, inv, p)
    } else {
        proof {
            lemma_mod_ops_range(y2 as int, y1 as int, pp);
            lemma_mod_ops_range(x2 as int, x1 as int, pp);
            lemma_trem_congruent(y2 as int, pp);
            lemma_trem_congruent(y1 as int, pp);
            lemma_trem_congruent(x2 as int, pp);
            lemma_trem_congruent(x1 as int, pp);
        }
        let num = mod_sub(y2, y1, p);
        let den = mod_sub(x2, x1, p);
        let inv = mod_inv(den, p);
        proof {
            lemma_trem_congruent(num as int, pp);
            lemma_reduced_product(trem(num as int, pp), inv as int, pp);
            lemma_mod_ops_range(num as int, inv as int, pp);
        }
        mod_mul(num, inv, p)
    }
}

/// Adds two points of the curve y^2 = x^3 + a x + b modulo `p`.
pub fn point_add(p1: Option<(i64, i64)>, p2: Option<(i64, i64)>, a: i64, p: i64) -> (r: Option<
    (i64, i64),
>)
    requires
        modulus_ok(p as int),
        point_ok(p1),
        point_ok(p2),
    ensures
        r == spec_point_add(p1, p2, a as int, p as int),
        point_ok(r),
{
    match (p1, p2) {
        (None, q) => q,
        (q, None) => q,
        (Some((x1, y1)), Some((x2, y2))) => {
            proof {
                lemma_trem_congruent(y1 as int, p as int);
                lemma_trem_congruent(y2 as int, p as int);
            }
            if x1 == x2 && mod_add(y1, y2, p) == 0 {
                return None;
            }
            let m = slope(x1, y1, x2, y2, a, p);
            Some(third_point(m, x1, y1, x2, p))
        },
    }
}


/// Double-and-add over the bits of `k`: `acc` gains `temp` for every set
/// bit, and `temp` doubles at each step.
pub open spec fn spec_ladder(k: int, temp: Option<(i64, i64)>, acc: Option<(i64, i64)>, a: int, p: int) -> Option<(i64, i64)>
    decreases k,
{
    if k <= 0 {
        acc
    } else {
        let acc2 = if k % 2 == 1 {
            spec_point_add(acc, temp, a, p)
        } else {
            acc
        };
        spec_ladder(k / 2, spec_point_add(temp, temp, a, p), acc2, a, p)
    }
}

/// The point `scalar_mul` computes: double-and-add over `k mod N`.
pub open spec fn spec_scalar_mul(k: int, pt: Option<(i64, i64)>, a: int, p: int) -> Option<(i64, i64)> {
    spec_ladder(trem(k, N as int), pt, None, a, p)
}

/// Multiplies `p` by `k mod N` with double-and-add.
pub fn scalar_mul(k: i64, p: Option<(i64, i64)>, a: i64, p_mod: i64) -> (r: Option<(i64, i64)>)
    requires
        modulus_ok(p_mod as int),
        point_ok(p),
    ensures
        r == spec_scalar_mul(k as int, p, a as int, p_mod as int),
        point_ok(r),
{
    let mut result: Option<(i64, i64)> = None;
    let mut temp = p;
    let ghost k0 = k;
    let mut k = k % N;
    while k > 0
        invariant
            modulus_ok(p_mod as int),
            point_ok(temp),
            point_ok(result),
            spec_ladder(k as int, temp, result, a as int, p_mod as int) == spec_scalar_mul(
                k0 as int,
                p,
                a as int,
                p_mod as int,
            ),
        decreases k,
    {
        if k % 2 == 1 {
            result = point_add(result, temp, a, p_mod);
        }
        temp = point_add(temp, temp, a, p_mod);
        k = k / 2;
    }
    result
}


/// The stand-in hash of two summands: their sum modulo P.
pub fn hash(x: i64, y: i64) -> (h: i64)
    requires
        fits_i64(x + y),
    ensures
        h == trem(x + y, P as int),
{
    (x + y) % P
}

/// The trusted setup: the proving key [SECRET]G and the verifying key [1]G.
pub fn setup() -> (keys: (Option<(i64, i64)>, Option<(i64, i64)>))
    ensures
        keys.0 == spec_scalar_mul(SECRET as int, Some((GX, GY)), A as int, P as int),
        keys.1 == spec_scalar_mul(1, Some((GX, GY)), A as int, P as int),
        point_ok(keys.0),
        point_ok(keys.1),
{
    let s: i64 = SECRET;
    let pk = scalar_mul(s, Some((GX, GY)), A, P);
    let vk = scalar_mul(1, Some((GX, GY)), A, P);
    (pk, vk)
}

/// What `prove` returns for the claim x + y = z under proving key `pk`.
pub open spec fn spec_prove(x: int, y: int, z: int, pk: Option<(i64, i64)>) -> (Option<(i64, i64)>, i64) {
    if spec_mod_add(x, y, P as int) != trem(z, P as int) {
        (None, 0)
    } else {
        let h = trem(x + y, P as int);
        if pk is None {
            (None, h as i64)
        } else {
            (spec_scalar_mul(h, pk, A as int, P as int), h as i64)
        }
    }
}

/// Proves x + y = z: nothing when the sum is wrong modulo P; otherwise the
/// hash h of the summands and, when there is a proving key, [h] pk.
pub fn prove(x: i64, y: i64, z: i64, pk: Option<(i64, i64)>) -> (r: (Option<(i64, i64)>, i64))
    requires
        fits_i64(x + y),
        point_ok(pk),
    ensures
        r == spec_prove(x as int, y as int, z as int, pk),
        point_ok(r.0),
{
    proof {
        lemma_trem_congruent(x as int, P as int);
        lemma_trem_congruent(y as int, P as int);
    }
    if mod_add(x, y, P) != z % P {
        return (None, 0);
    }
    let h = hash(x, y);
    if pk.is_none() {
        return (None, h);
    }
    let proof_point = scalar_mul(h, pk, A, P);
    (proof_point, h)
}

/// What `verify` decides for hash `h`, proof point `proof` and key `vk`.
pub open spec fn spec_verify(h: int, proof: Option<(i64, i64)>, vk: Option<(i64, i64)>) -> bool {
    match (proof, vk) {
        (Some(pt), Some(v)) => match spec_scalar_mul(h, Some(v), A as int, P as int) {
            Some(e) => match spec_scalar_mul(SECRET as int, Some(e), A as int, P as int) {
                Some(sv) => sv == pt,
                None => false,
            },
            None => false,
        },
        _ => false,
    }
}

/// Accepts when [SECRET][h] vk equals the proof point.
pub fn verify(h: i64, proof: Option<(i64, i64)>, vk: Option<(i64, i64)>) -> (ok: bool)
    requires
        point_ok(vk),
    ensures
        ok == spec_verify(h as int, proof, vk),
{
    match (proof, vk) {
        (Some(pt), Some(v)) => {
            let s: i64 = SECRET;
            let expected = scalar_mul(h, Some(v), A, P);
            match expected {
                Some(e) => {
                    let scaled_vk = scalar_mul(s, Some(e), A, P);
                    match scaled_vk {
                        Some(sv) => sv.0 == pt.0 && sv.1 == pt.1,
                        None => false,
                    }
                },
                None => false,
            }
        },
        _ => false,
    }
}

proof fn lemma_inverses_mod_17()
    ensures
        spec_inv_strict(4, 17) == 13,
        spec_inv_strict(14, 17) == 11,
{
    reveal_with_fuel(crate::euclid::ext_euclid, 2);
    assert(crate::euclid::ext_euclid(1, 0, -4, 17) == (1int, -4int));
    assert(crate::euclid::ext_euclid(4, 1, 1, -4) == (1int, -4int));
    assert(crate::euclid::ext_euclid(17, 4, 0, 1) == (1int, -4int));
    assert(crate::euclid::ext_euclid(1, 0, -6, 17) == (1int, -6int));
    assert(crate::euclid::ext_euclid(2, 1, 5, -6) == (1int, -6int));
    assert(crate::euclid::ext_euclid(3, 2, -1, 5) == (1int, -6int));
    assert(crate::euclid::ext_euclid(14, 3, 1, -1) == (1int, -6int));
    assert(crate::euclid::ext_euclid(17, 14, 0, 1) == (1int, -6int));
}

proof fn lemma_add_1_2_1_2()
    ensures
        spec_point_add(Some((1i64, 2i64)), Some((1i64, 2i64)), 0, 17) == Some((6i64, 7i64)),
{
    lemma_inverses_mod_17();
    assert(trem(1, 17) == 1); assert(1 * 1 == 1); assert(trem(1, 17) == 1);
    assert(spec_mod_mul(1, 1, 17) == 1);
    assert(trem(3, 17) == 3); assert(3 * 1 == 3); assert(trem(3, 17) == 3);
    assert(spec_mod_mul(3, 1, 17) == 3);
    assert(spec_mod_add(3, 0, 17) == 3);
    assert(trem(2, 17) == 2); assert(2 * 2 == 4); assert(trem(4, 17) == 4);
    assert(spec_mod_mul(2, 2, 17) == 4);
    assert(spec_inv_strict(4, 17) == 13);
    assert(trem(3, 17) == 3); assert(3 * 13 == 39); assert(trem(39, 17) == 5);
    assert(spec_mod_mul(3, 13, 17) == 5);
    assert(spec_slope(1, 2, 1, 2, 0, 17) == 5);
    assert(trem(5, 17) == 5); assert(5 * 5 == 25); assert(trem(25, 17) == 8);
    assert(spec_mod_mul(5, 5, 17) == 8);
    assert(spec_mod_sub(8, 1, 17) == 7);
    assert(spec_mod_sub(7, 1, 17) == 6);
    assert(spec_mod_sub(1, 6, 17) == 12);
    assert(trem(5, 17) == 5); assert(5 * 12 == 60); assert(trem(60, 17) == 9);
    assert(spec_mod_mul(5, 12, 17) == 9);
    assert(spec_mod_sub(9, 2, 17) == 7);
    assert(spec_third_point(5, 1, 2, 1, 17) == (6i64, 7i64));
}

proof fn lemma_add_6_7_6_7()
    ensures
        spec_point_add(Some((6i64, 7i64)), Some((6i64, 7i64)), 0, 17) == Some((9i64, 16i64)),
{
    lemma_inverses_mod_17();
    assert(trem(6, 17) == 6); assert(6 * 6 == 36); assert(trem(36, 17) == 2);
    assert(spec_mod_mul(6, 6, 17) == 2);
    assert(trem(3, 17) == 3); assert(3 * 2 == 6); assert(trem(6, 17) == 6);
    assert(spec_mod_mul(3, 2, 17) == 6);
    assert(spec_mod_add(6, 0, 17) == 6);
    assert(trem(2, 17) == 2); assert(2 * 7 == 14); assert(trem(14, 17) == 14);
    assert(spec_mod_mul(2, 7, 17) == 14);
    assert(spec_inv_strict(14, 17) == 11);
    assert(trem(6, 17) == 6); assert(6 * 11 == 66); assert(trem(66, 17) == 15);
    assert(spec_mod_mul(6, 11, 17) == 15);
    assert(spec_slope(6, 7, 6, 7, 0, 17) == 15);
    assert(trem(15, 17) == 15); assert(15 * 15 == 225); assert(trem(225, 17) == 4);
    assert(spec_mod_mul(15, 15, 17) == 4);
    assert(spec_mod_sub(4, 6, 17) == 15);
    assert(spec_mod_sub(15, 6, 17) == 9);
    assert(spec_mod_sub(6, 9, 17) == 14);
    assert(trem(15, 17) == 15); assert(15 * 14 == 210); assert(trem(210, 17) == 6);
    assert(spec_mod_mul(15, 14, 17) == 6);
    assert(spec_mod_sub(6, 7, 17) == 16);
    assert(spec_third_point(15, 6, 7, 6, 17) == (9i64, 16i64));
}

proof fn lemma_multiple_1()
    ensures
        spec_ladder(1, Some((1i64, 2i64)), None, 0, 17) == Some((1i64, 2i64)),
        spec_ladder(2, Some((1i64, 2i64)), None, 0, 17) == Some((6i64, 7i64)),
        spec_ladder(1, Some((6i64, 7i64)), None, 0, 17) == Some((6i64, 7i64)),
{
    lemma_add_1_2_1_2();
    reveal_with_fuel(spec_ladder, 5);
}

proof fn lemma_multiple_2()
    ensures
        spec_ladder(2, Some((1i64, 2i64)), None, 0, 17) == Some((6i64, 7i64)),
        spec_ladder(2, Some((6i64, 7i64)), None, 0, 17) == Some((9i64, 16i64)),
        spec_ladder(2, Some((6i64, 7i64)), None, 0, 17) == Some((9i64, 16i64)),
{
    lemma_add_1_2_1_2();
    lemma_add_6_7_6_7();
    reveal_with_fuel(spec_ladder, 5);
}


/// The demo keys: `[2]G = (6, 7)` and `[1]G = G`.
proof fn lemma_demo_points()
    ensures
        spec_scalar_mul(SECRET as int, Some((GX, GY)), A as int, P as int) == Some((6i64, 7i64)),
        spec_scalar_mul(1, Some((GX, GY)), A as int, P as int) == Some((GX, GY)),
{
    lemma_multiple_1();
    lemma_multiple_2();
    assert(trem(2, N as int) == 2);
    assert(trem(1, N as int) == 1);
}

/// For every scalar `k` in `1..N`, `[k]` of the proving key equals
/// `[SECRET]` of `[k]G`, and neither is the point at infinity.
proof fn lemma_multiples_commute(k: int)
    requires
        0 < k < N,
    ensures
        ({
            let e = spec_ladder(k, Some((GX, GY)), None, A as int, P as int);
            &&& e is Some
            &&& spec_ladder(2, e, None, A as int, P as int) is Some
            &&& spec_ladder(2, e, None, A as int, P as int) == spec_ladder(k, Some((6i64, 7i64)), None, A as int, P as int)
        }),
{
    if k == 1 {
        lemma_multiple_1();
    } else {
        lemma_multiple_2();
    }
}

/// Completeness of the demo system: the proof of a true claim `x + y = z`
/// made with the key from `setup` verifies under the verifying key, unless
/// the claim's hash `h` is a multiple of N or negative, where the proof is
/// the point at infinity, which `verify` takes for a missing proof.
pub proof fn lemma_true_claims_verify(x: int, y: int, z: int)
    requires
        spec_mod_add(x, y, P as int) == trem(z, P as int),
        trem(trem(x + y, P as int), N as int) > 0,
    ensures
        ({
            let pk = spec_scalar_mul(SECRET as int, Some((GX, GY)), A as int, P as int);
            let vk = spec_scalar_mul(1, Some((GX, GY)), A as int, P as int);
            let r = spec_prove(x, y, z, pk);
            spec_verify(r.1 as int, r.0, vk)
        }),
{
    lemma_demo_points();
    let h = trem(x + y, P as int);
    lemma_trem_congruent(x + y, P as int);
    lemma_trem_congruent(h, N as int);
    let k = trem(h, N as int);
    assert(trem((h as i64) as int, N as int) == k);
    assert(trem(SECRET as int, N as int) == 2);
    lemma_multiples_commute(k);
}

} // verus!
