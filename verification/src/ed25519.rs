//! A teaching-sized Schnorr-style signature in the shape of Ed25519 over a
//! toy curve modulo 5, with a deterministic nonce and hashing by reduction.
use vstd::prelude::*;
use crate::euclid::trem;
use crate::modular::{
    fits_i64, inv_value, lemma_mod_ops_range, lemma_reduced_product, lemma_trem_congruent,
    spec_mod_add, spec_mod_mul, spec_mod_sub,
};
pub use crate::modular::{mod_add, mod_inv, mod_mul, mod_sub};

verus! {

/// The modulus of the field.
pub const P: i64 = 5;

/// The curve parameter d.
pub const D: i64 = 1;

/// The order used for scalars.
pub const L: i64 = 3;

/// The x-coordinate of the base point B.
pub const BX: i64 = 1;

/// The y-coordinate of the base point B.
pub const BY: i64 = 2;

/// Values this curve code multiplies without reducing first: small enough
/// that a product of five of them stays inside the `i64` range.
pub open spec fn tiny(x: int) -> bool {
    -1024 <= x <= 1024
}

/// A point (or `None`) with tiny coordinates.
pub open spec fn tiny_point(pt: Option<(i64, i64)>) -> bool {
    match pt {
        None => true,
        Some((x, y)) => tiny(x as int) && tiny(y as int),
    }
}

/// The largest modulus the curve code accepts.
pub open spec fn ed_modulus_ok(p: int) -> bool {
    0 < p <= 1024
}

/// The sum `point_add` computes; `None` is the neutral element.
pub open spec fn spec_point_add(p1: Option<(i64, i64)>, p2: Option<(i64, i64)>, d: int, p: int) -> Option<
    (i64, i64),
> {
    match (p1, p2) {
        (None, q) => q,
        (q, None) => q,
        (Some((x1, y1)), Some((x2, y2))) => {
            let x1 = x1 as int;
            let y1 = y1 as int;
            let x2 = x2 as int;
            let y2 = y2 as int;
            let num = spec_mod_sub(y2, x1 * y1 * x2 * y2 * d, p);
            let den = spec_mod_sub(x2, x1 * y1 * y2, p);
            let m = spec_mod_mul(num, inv_value(den, p), p);
            let x3 = spec_mod_sub(spec_mod_mul(m, m, p), spec_mod_add(x1, x2, p), p);
            let y3 = spec_mod_sub(spec_mod_mul(m, spec_mod_sub(x1, x3, p), p), y1, p);
            Some((x3 as i64, y3 as i64))
        },
    }
}

proof fn lemma_tiny_products(x1: int, y1: int, x2: int, y2: int, d: int)
    requires
        tiny(x1),
        tiny(y1),
        tiny(x2),
        tiny(y2),
        tiny(d),
    ensures
        -0x40_0000_0000_0000 <= x1 * y1 * x2 * y2 * d <= 0x40_0000_0000_0000,
        -0x40_0000_0000_0000 <= x1 * y1 * x2 * y2 <= 0x40_0000_0000_0000,
        -0x40_0000_0000_0000 <= x1 * y1 * x2 <= 0x40_0000_0000_0000,
        -0x40_0000_0000_0000 <= x1 * y1 <= 0x40_0000_0000_0000,
        -0x40_0000_0000_0000 <= x1 * y1 * y2 <= 0x40_0000_0000_0000,
{
    assert(-1024 * 1024 <= x1 * y1 <= 1024 * 1024) by (nonlinear_arith)
        requires
            tiny(x1),
            tiny(y1),
    ;
    let a = x1 * y1;
    assert(-1024 * 1024 * 1024 <= a * x2 <= 1024 * 1024 * 1024) by (nonlinear_arith)
        requires
            -1024 * 1024 <= a <= 1024 * 1024,
            tiny(x2),
    ;
    assert(-1024 * 1024 * 1024 <= a * y2 <= 1024 * 1024 * 1024) by (nonlinear_arith)
        requires
            -1024 * 1024 <= a <= 1024 * 1024,
            tiny(y2),
    ;
    let b = a * x2;
    assert(-1024 * 1024 * 1024 * 1024 <= b * y2 <= 1024 * 1024 * 1024 * 1024) by (nonlinear_arith)
        requires
            -1024 * 1024 * 1024 <= b <= 1024 * 1024 * 1024,
            tiny(y2),
    ;
    let c = b * y2;
    assert(-1024 * 1024 * 1024 * 1024 * 1024 <= c * d <= 1024 * 1024 * 1024 * 1024 * 1024)
        by (nonlinear_arith)
        requires
            -1024 * 1024 * 1024 * 1024 <= c <= 1024 * 1024 * 1024 * 1024,
            tiny(d),
    ;
}

/// Adds two points with the simplified addition law of this toy curve.
pub fn point_add(p1: Option<(i64, i64)>, p2: Option<(i64, i64)>, d: i64, p: i64) -> (r: Option<
    (i64, i64),
>)
    requires
        ed_modulus_ok(p as int),
        tiny_point(p1),
        tiny_point(p2),
        tiny(d as int),
    ensures
        r == spec_point_add(p1, p2, d as int, p as int),
        tiny_point(r),
{
    match (p1, p2) {
        (None, q) => q,
        (q, None) => q,
        (Some((x1, y1)), Some((x2, y2))) => {
            let ghost pp = p as int;
            proof {
                lemma_tiny_products(x1 as int, y1 as int, x2 as int, y2 as int, d as int);
                lemma_trem_congruent(y2 as int, pp);
                lemma_trem_congruent(x2 as int, pp);
                lemma_trem_congruent(x1 as int, pp);
                lemma_trem_congruent(y1 as int, pp);
                lemma_trem_congruent(x1 * y1 * x2 * y2 * d, pp);
                lemma_trem_congruent(x1 * y1 * y2, pp);
            }
            let num = mod_sub(y2, x1 * y1 * x2 * y2 * d, p);
            let den = mod_sub(x2, x1 * y1 * y2, p);
            let inv = mod_inv(den, p);
            proof {
                lemma_mod_ops_range(y2 as int, x1 * y1 * x2 * y2 * d, pp);
                lemma_trem_congruent(num as int, pp);
                lemma_reduced_product(trem(num as int, pp), inv as int, pp);
            }
            let m = mod_mul(num, inv, p);
            proof {
                lemma_mod_ops_range(num as int, inv as int, pp);
                lemma_trem_congruent(m as int, pp);
                lemma_reduced_product(trem(m as int, pp), m as int, pp);
            }
            let mm = mod_mul(m, m, p);
            let sx = mod_add(x1, x2, p);
            proof {
                lemma_mod_ops_range(m as int, m as int, pp);
                lemma_mod_ops_range(x1 as int, x2 as int, pp);
                lemma_trem_congruent(mm as int, pp);
                lemma_trem_congruent(sx as int, pp);
            }
            let x3 = mod_sub(mm, sx, p);
            proof {
                lemma_mod_ops_range(mm as int, sx as int, pp);
                lemma_trem_congruent(x3 as int, pp);
            }
            let e = mod_sub(x1, x3, p);
            proof {
                lemma_mod_ops_range(x1 as int, x3 as int, pp);
                lemma_reduced_product(trem(m as int, pp), e as int, pp);
            }
            let f = mod_mul(m, e, p);
            proof {
                lemma_mod_ops_range(m as int, e as int, pp);
                lemma_trem_congruent(f as int, pp);
            }
            let y3 = mod_sub(f, y1, p);
            proof {
                lemma_mod_ops_range(f as int, y1 as int, pp);
            }
            Some((x3, y3))
        },
    }
}

/// `k` copies of `pt` added up from the left; no copies for `k <= 0`.
pub open spec fn spec_scalar_mul(k: int, pt: Option<(i64, i64)>, d: int, p: int) -> Option<(i64, i64)>
    decreases k,
{
    if k <= 0 {
        None
    } else {
        spec_point_add(spec_scalar_mul(k - 1, pt, d, p), pt, d, p)
    }
}

/// Adds `p` to itself `k` times, starting from `None`.
pub fn scalar_mul(k: i64, p: Option<(i64, i64)>, d: i64, p_mod: i64) -> (r: Option<(i64, i64)>)
    requires
        ed_modulus_ok(p_mod as int),
        tiny_point(p),
        tiny(d as int),
    ensures
        r == spec_scalar_mul(k as int, p, d as int, p_mod as int),
        tiny_point(r),
{
    let mut result: Option<(i64, i64)> = None;
    let temp = p;
    let mut i: i64 = 0;
    while i < k
        invariant
            ed_modulus_ok(p_mod as int),
            tiny_point(p),
            tiny(d as int),
            temp == p,
            0 <= i,
            i <= k || i == 0,
            result == spec_scalar_mul(i as int, p, d as int, p_mod as int),
            tiny_point(result),
        decreases k - i,
    {
        result = point_add(result, temp, d, p_mod);
        i = i + 1;
    }
    result
}

/// The stand-in hash: reduction modulo `p`.
pub fn hash(data: i64, p: i64) -> (h: i64)
    requires
        crate::modular::rem_ok(data, p),
    ensures
        h == trem(data as int, p as int),
{
    data % p
}


/// The nonce `sign` derives from the secret and the message.
pub open spec fn spec_nonce(message: int, secret: int) -> int {
    trem(trem(secret, L as int) + message, L as int)
}

/// The challenge hash of the nonce point's x-coordinate, the key scalar and
/// the message.
pub open spec fn spec_challenge(rx: int, key: int, message: int) -> int {
    trem(trem(rx, L as int) + trem(key, L as int) + message, L as int)
}

/// The nonce point R = [r]B (meaningful when it exists).
pub open spec fn spec_nonce_point(message: int, secret: int) -> (i64, i64) {
    spec_scalar_mul(spec_nonce(message, secret), Some((BX, BY)), D as int, P as int)->0
}

/// Whether `sign` can run: the nonce sums fit, and the nonce point exists.
pub open spec fn sign_ok(message: int, secret: int) -> bool {
    &&& fits_i64(trem(secret, L as int) + message)
    &&& spec_scalar_mul(spec_nonce(message, secret), Some((BX, BY)), D as int, P as int) is Some
    &&& fits_i64(
        trem(spec_nonce_point(message, secret).0 as int, L as int) + trem(trem(secret, L as int), L as int) + message,
    )
}

/// Signs `message`: the nonce point R = [r]B and s = (r + h a) mod L with
/// the challenge h. A nonce of zero or less gives no R, so such inputs are
/// not accepted.
pub fn sign(message: i64, secret: i64) -> (sig: ((i64, i64), i64))
    requires
        sign_ok(message as int, secret as int),
    ensures
        ({
            let r = spec_nonce(message as int, secret as int);
            let rp = spec_nonce_point(message as int, secret as int);
            let a = trem(secret as int, L as int);
            let h = spec_challenge(rp.0 as int, a, message as int);
            &&& sig.0 == rp
            &&& sig.1 == trem(r + spec_mod_mul(h, a, L as int), L as int)
        }),
{
    let ghost ll = L as int;
    proof {
        lemma_trem_congruent(secret as int, ll);
    }
    let r = hash(hash(secret, L) + message, L);
    proof {
        lemma_trem_congruent(trem(secret as int, ll) + message, ll);
    }
    let r_point = scalar_mul(r, Some((BX, BY)), D, P);
    let rp = match r_point {
        Some(pt) => pt,
        None => (0, 0),
    };
    let a = secret % L;
    proof {
        lemma_trem_congruent(rp.0 as int, ll);
        lemma_trem_congruent(a as int, ll);
    }
    let h = hash(hash(rp.0, L) + hash(a, L) + message, L);
    proof {
        lemma_trem_congruent(h as int, ll);
        lemma_reduced_product(trem(h as int, ll), a as int, ll);
        lemma_mod_ops_range(h as int, a as int, ll);
    }
    let s = (r + mod_mul(h, a, L)) % L;
    (rp, s)
}

/// Checks a signature: [s]B must equal R + [h pk.x mod L] pk for the
/// challenge h.
pub fn verify(message: i64, signature: ((i64, i64), i64), public_key: (i64, i64)) -> (ok: bool)
    requires
        tiny(signature.0.0 as int),
        tiny(signature.0.1 as int),
        tiny(public_key.0 as int),
        tiny(public_key.1 as int),
        fits_i64(trem(signature.0.0 as int, L as int) + trem(public_key.0 as int, L as int) + message),
    ensures
        ({
            let h = spec_challenge(signature.0.0 as int, public_key.0 as int, message as int);
            let left = spec_scalar_mul(signature.1 as int, Some((BX, BY)), D as int, P as int);
            let right = spec_point_add(
                Some(signature.0),
                spec_scalar_mul(spec_mod_mul(h, public_key.0 as int, L as int), Some(public_key), D as int, P as int),
                D as int,
                P as int,
            );
            ok == (left == right)
        }),
{
    let ((rx, ry), s) = signature;
    let ghost ll = L as int;
    proof {
        lemma_trem_congruent(rx as int, ll);
        lemma_trem_congruent(public_key.0 as int, ll);
    }
    let h = hash(hash(rx, L) + hash(public_key.0, L) + message, L);
    proof {
        lemma_trem_congruent(h as int, ll);
        assert(-ll < trem(h as int, ll) < ll);
        crate::modular::lemma_reduced_times_small(trem(h as int, ll), public_key.0 as int, ll);
    }
    let k = mod_mul(h, public_key.0, L);
    let left = scalar_mul(s, Some((BX, BY)), D, P);
    let right = point_add(Some((rx, ry)), scalar_mul(k, Some(public_key), D, P), D, P);
    match (left, right) {
        (None, None) => true,
        (Some(l), Some(q)) => l.0 == q.0 && l.1 == q.1,
        _ => false,
    }
}

/// `[2]B = (4, 1)`.
proof fn lemma_double_base()
    ensures
        spec_scalar_mul(2, Some((BX, BY)), D as int, P as int) == Some((4i64, 1i64)),
        spec_scalar_mul(1, Some((BX, BY)), D as int, P as int) == Some((BX, BY)),
{
    reveal_with_fuel(crate::euclid::ext_euclid, 4);
    assert(inv_value(2, 5) == 3);
    assert(spec_mod_sub(2, 4, 5) == 3);
    assert(spec_mod_sub(1, 4, 5) == 2);
    assert(spec_mod_mul(3, 3, 5) == 4);
    assert(spec_mod_mul(4, 4, 5) == 1);
    assert(spec_mod_add(1, 1, 5) == 2);
    assert(spec_mod_sub(1, 2, 5) == 4);
    assert(spec_mod_sub(1, 4, 5) == 2);
    assert(spec_mod_mul(4, 2, 5) == 3);
    assert(spec_mod_sub(3, 2, 5) == 1);
    assert(spec_scalar_mul(0, Some((BX, BY)), D as int, P as int) == None::<(i64, i64)>);
    assert(spec_mod_sub(2, 1int * 2 * 1 * 2 * 1, 5) == 3);
    assert(spec_mod_sub(1, 1int * 2 * 2, 5) == 2);
    assert(spec_mod_mul(3, inv_value(2, 5), 5) == 4);
    assert(spec_mod_sub(spec_mod_mul(4, 4, 5), spec_mod_add(1, 1, 5), 5) == 4);
    assert(spec_mod_sub(spec_mod_mul(4, spec_mod_sub(1, 4, 5), 5), 2, 5) == 1);
    assert(spec_point_add(Some((1i64, 2i64)), Some((1i64, 2i64)), 1, 5) == Some((4i64, 1i64)));
}

/// A signature made with the demo key (secret 1, public key `[1]B`)
/// verifies for every message `m >= 0` with `m mod 3 == 1`. (For
/// `m mod 3 == 2` the nonce is 0 and there is nothing to sign; for
/// `m mod 3 == 0`, such as `m = 3`, the signature does not verify.)
pub proof fn lemma_demo_signature_verifies(m: i64)
    requires
        m >= 0,
        m % 3 == 1,
        m <= i64::MAX - 4,
    ensures
        ({
            let a = trem(1, L as int);
            let r = spec_nonce(m as int, 1);
            let rp = spec_nonce_point(m as int, 1);
            let s = trem(r + spec_mod_mul(spec_challenge(rp.0 as int, a, m as int), a, L as int), L as int);
            let h = spec_challenge(rp.0 as int, BX as int, m as int);
            spec_scalar_mul(s, Some((BX, BY)), D as int, P as int) == spec_point_add(
                Some(rp),
                spec_scalar_mul(spec_mod_mul(h, BX as int, L as int), Some((BX, BY)), D as int, P as int),
                D as int,
                P as int,
            )
        }),
{
    lemma_double_base();
    assert(trem(1, 3) == 1);
    assert(trem(1 + m, 3) == 2);
    assert(spec_nonce(m as int, 1) == 2);
    assert(spec_nonce_point(m as int, 1) == (4i64, 1i64));
    assert(trem(4, 3) == 1);
    assert(trem(1 + 1 + m, 3) == 0);
    assert(spec_challenge(4, 1, m as int) == 0);
    assert(spec_mod_mul(0, 1, 3) == 0);
    assert(trem(2, 3) == 2);
    assert(spec_scalar_mul(0, Some((BX, BY)), D as int, P as int) == None::<(i64, i64)>);
}

} // verus!
