//! Textbook RSA with small numbers: square-and-multiply exponentiation, the
//! private exponent by the extended Euclidean algorithm, and key generation
//! with the public exponent 17.
use vstd::prelude::*;
use vstd::arithmetic::power::pow;
use crate::euclid::{abs, ext_euclid, gcd, lemma_ext_euclid_bezout, lemma_ext_euclid_gcd, lemma_ext_euclid_step_bound, lemma_trunc_div_rem};
use crate::power_mod::{lemma_pow_mod_start, lemma_pow_mod_step, lemma_pow_zero};
use crate::primes::{is_prime, lemma_crt_two_primes, lemma_pow_one_plus_multiple};
use vstd::arithmetic::div_mod::{lemma_div_pos_is_pos, lemma_fundamental_div_mod, lemma_small_mod};
use vstd::arithmetic::mul::lemma_mul_strictly_positive;
use vstd::arithmetic::power::{lemma_pow_mod_noop, lemma_pow_multiplies};

verus! {

/// `base^exp mod modulus`, except that an empty exponent gives 1 whatever
/// the modulus.
pub open spec fn spec_mod_pow(base: int, exp: nat, modulus: int) -> int {
    if exp == 0 {
        1
    } else {
        pow(base, exp) % modulus
    }
}

/// Square-and-multiply modular exponentiation. The modulus must be nonzero,
/// and small enough that the product of two residues fits in 64 bits.
pub fn mod_pow(base: u64, exp: u64, modulus: u64) -> (r: u64)
    requires
        0 < modulus <= 0x1_0000_0000,
    ensures
        r == spec_mod_pow(base as int, exp as nat, modulus as int),
{
    let ghost m = modulus as int;
    let ghost e0 = exp as nat;
    let ghost b_in = base as int;
    let mut result: u64 = 1;
    let mut base = base % modulus;
    let mut exp = exp;
    proof {
        lemma_pow_mod_start(b_in, e0, m);
    }
    while exp > 0
        invariant
            0 < m <= 0x1_0000_0000,
            m == modulus,
            base < modulus,
            result <= modulus,
            exp > 0 || result < modulus || e0 == 0,
            exp <= e0,
            e0 == 0 ==> result == 1,
            (result * pow(base as int, exp as nat)) % m == pow(b_in, e0) % m,
        decreases exp,
    {
        proof {
            lemma_pow_mod_step(result as int, base as int, exp as nat, m);
            assert(result * base <= 0x1_0000_0000 * 0xffff_ffff) by (nonlinear_arith)
                requires
                    result <= 0x1_0000_0000,
                    base <= 0xffff_ffff,
            ;
            assert(base * base <= 0xffff_ffff * 0xffff_ffff) by (nonlinear_arith)
                requires
                    base <= 0xffff_ffff,
            ;
        }
        assert((exp & 1 == 1) == (exp % 2 == 1) && exp >> 1 == exp / 2) by (bit_vector);
        if exp & 1 == 1 {
            result = (result * base) % modulus;
        }
        base = (base * base) % modulus;
        exp = exp >> 1;
    }
    proof {
        lemma_pow_zero(base as int);
        assert(result * pow(base as int, 0) == result * 1);
        if e0 > 0 {
            vstd::arithmetic::div_mod::lemma_small_mod(result as nat, m as nat);
        }
    }
    result
}


/// What `mod_inverse` returns: when the recurrence on `(e, phi)` ends at 1,
/// the coefficient of `e`, moved into `[0, phi)` when it is negative.
pub open spec fn spec_mod_inverse(e: int, phi: int) -> Option<u64> {
    let (g, t) = ext_euclid(e, phi, 1, 0);
    if g == 1 {
        Some((if t < 0 { t + phi } else { t }) as u64)
    } else {
        None
    }
}

/// The inverse of `e` modulo `phi` by the extended Euclidean algorithm, or
/// `None` when `e` and `phi` share a factor.
pub fn mod_inverse(e: u64, phi: u64) -> (r: Option<u64>)
    requires
        e <= i64::MAX,
        phi <= i64::MAX,
    ensures
        r == spec_mod_inverse(e as int, phi as int),
        r is Some <==> gcd(e as nat, phi as nat) == 1,
        r matches Some(d) ==> phi > 1 ==> (e * d) % (phi as int) == 1 && d < phi,
{
    let mut a = e as i64;
    let mut b = phi as i64;
    let mut x: i64 = 1;
    let mut y: i64 = 0;
    let ghost bound: int = if phi == 0 { 1 } else { phi as int };
    let ghost mut started = false;
    proof {
        let ab = abs(b as int);
        let aa = abs(a as int);
        assert(abs(0) * aa + abs(1) * ab <= bound) by (nonlinear_arith)
            requires
                ab == phi,
                phi <= bound,
        ;
    }
    while b != 0
        invariant
            1 <= bound <= i64::MAX,
            bound == if phi == 0 { 1 } else { phi as int },
            ext_euclid(a as int, b as int, x as int, y as int) == ext_euclid(e as int, phi as int, 1, 0),
            abs(a as int) <= i64::MAX,
            abs(b as int) <= i64::MAX,
            abs(y as int) * abs(a as int) + abs(x as int) * abs(b as int) <= bound,
            abs(x as int) <= bound,
            abs(y as int) <= bound,
            !started ==> a == e && b == phi && x == 1 && y == 0,
            started ==> abs(b as int) < abs(a as int),
            started ==> abs(x as int) * abs(a as int) <= bound,
        decreases abs(b as int),
    {
        proof {
            lemma_ext_euclid_step_bound(a as int, b as int, x as int, y as int, bound);
            lemma_trunc_div_rem(a as int, b as int);
            let ay = abs(y as int);
            let aa = abs(a as int);
            let ab = abs(b as int);
            let ax = abs(x as int);
            if started {
                assert(ay * ab <= bound) by (nonlinear_arith)
                    requires
                        ab < aa,
                        ay * aa + ax * ab <= bound,
                        ay >= 0,
                        ax >= 0,
                        ab >= 0,
                ;
            } else {
                assert(ay * ab == 0) by (nonlinear_arith)
                    requires
                        ay == 0,
                ;
            }
        }
        let quotient = a / b;
        let temp = b;
        b = a % temp;
        a = temp;
        let temp_x = x;
        x = y;
        y = temp_x - quotient * y;
        proof {
            started = true;
        }
    }
    proof {
        lemma_ext_euclid_gcd(e as int, phi as int, 1, 0);
        if phi > 0 {
            vstd::arithmetic::div_mod::lemma_small_mod(0, phi as nat);
            assert((1 * e - e) % (phi as int) == 0);
            assert((0 * e - phi) % (phi as int) == 0) by {
                vstd::arithmetic::div_mod::lemma_mod_multiples_basic(-1, phi as int);
            }
            lemma_ext_euclid_bezout(e as int, phi as int, 1, 0, e as int, phi as int);
        }
    }
    if a != 1 {
        return None;
    }
    let result = if x < 0 {
        x + phi as i64
    } else {
        x
    };
    proof {
        if phi > 1 {
            let t = x as int;
            let pp = phi as int;
            let d = result as int;
            assert(started);
            assert(abs(t) <= pp) by (nonlinear_arith)
                requires
                    abs(t) * abs(1) <= pp,
            ;
            assert((t * e - 1) % pp == 0);
            assert((d * e - 1) % pp == 0) by {
                if d == t + pp {
                    assert(d * e - 1 == (t * e - 1) + pp * e) by (nonlinear_arith)
                        requires
                            d == t + pp,
                    ;
                    vstd::arithmetic::div_mod::lemma_mod_multiples_basic(e as int, pp);
                    vstd::arithmetic::mul::lemma_mul_is_commutative(pp, e as int);
                    crate::modular::lemma_divisible_sum(t * e - 1, pp * e, pp);
                }
            }
            assert(e * d == d * e) by (nonlinear_arith);
            vstd::arithmetic::div_mod::lemma_fundamental_div_mod(d * e - 1, pp);
            vstd::arithmetic::div_mod::lemma_mod_multiples_vanish((d * e - 1) / pp, 1, pp);
            vstd::arithmetic::div_mod::lemma_small_mod(1, pp as nat);
            if d == pp {
                assert(d * e - 1 == pp * e + (-1)) by (nonlinear_arith)
                    requires
                        d == pp,
                ;
                vstd::arithmetic::div_mod::lemma_mod_multiples_vanish(e as int, -1, pp);
                vstd::arithmetic::div_mod::lemma_mod_sub_multiples_vanish(pp - 1, pp);
                vstd::arithmetic::div_mod::lemma_small_mod((pp - 1) as nat, pp as nat);
                assert((-pp + (pp - 1)) % pp == (pp - 1) % pp);
            }
        }
    }
    Some(result as u64)
}


/// The public exponent of every key pair.
pub const PUBLIC_EXPONENT: u64 = 17;

/// Euler's totient of `p * q` for distinct primes: `(p - 1)(q - 1)`.
pub open spec fn spec_phi(p: int, q: int) -> int {
    (p - 1) * (q - 1)
}

/// The key pair for primes `p` and `q`: public key `(n, 17)` and private key
/// `(n, d)` with `n = p q` and `d` the inverse of 17 modulo `(p - 1)(q - 1)`.
/// A totient that shares a factor with 17 has no such `d` and is not
/// accepted.
pub fn generate_keypair(p: u64, q: u64) -> (keys: ((u64, u64), (u64, u64)))
    requires
        p >= 1,
        q >= 1,
        p * q <= u64::MAX,
        spec_phi(p as int, q as int) <= i64::MAX,
        gcd(17, spec_phi(p as int, q as int) as nat) == 1,
    ensures
        keys.0.0 == p * q,
        keys.0.1 == 17,
        keys.1.0 == p * q,
        Some(keys.1.1) == spec_mod_inverse(17, spec_phi(p as int, q as int)),
        spec_phi(p as int, q as int) > 1 ==> (17 * keys.1.1) % spec_phi(p as int, q as int) == 1,
{
    let n = p * q;
    assert((p - 1) * (q - 1) <= p * q) by (nonlinear_arith)
        requires
            p >= 1,
            q >= 1,
    ;
    let phi = (p - 1) * (q - 1);
    let e = PUBLIC_EXPONENT;
    let d = match mod_inverse(e, phi) {
        Some(d) => d,
        None => 0,
    };
    ((n, e), (n, d))
}

/// Decryption undoes encryption: for two different primes `p` and `q`,
/// exponents `e` and `d` that are inverse modulo `(p - 1)(q - 1)`, and a
/// message `m` below `n = p q`, `(m^e mod n)^d mod n` is `m` again. The keys
/// `generate_keypair` makes from two different primes have this relation
/// with `e = 17`.
pub proof fn lemma_rsa_round_trip(p: nat, q: nat, e: nat, d: nat, m: nat)
    requires
        is_prime(p),
        is_prime(q),
        p != q,
        m < p * q,
        ((e * d) as int) % spec_phi(p as int, q as int) == 1,
    ensures
        spec_mod_pow(spec_mod_pow(m as int, e, (p * q) as int), d, (p * q) as int) == m,
{
    let n = (p * q) as int;
    let phi = spec_phi(p as int, q as int);
    assert(phi >= 2) by (nonlinear_arith)
        requires
            p >= 2,
            q >= 2,
            p != q,
            phi == (p - 1) * (q - 1),
    ;
    lemma_mul_strictly_positive(p as int, q as int);
    // e d == 1 + j phi
    lemma_fundamental_div_mod((e * d) as int, phi);
    let j = (e * d) as int / phi;
    lemma_div_pos_is_pos((e * d) as int, phi);
    assert(e * d == 1 + j * phi);
    assert(e > 0 && d > 0) by {
        if e == 0 || d == 0 {
            assert(e * d == 0) by (nonlinear_arith)
                requires
                    e == 0 || d == 0,
            ;
            lemma_small_mod(0, phi as nat);
        }
    }
    let jn = j as nat;
    let kp: nat = jn * (q - 1) as nat;
    let kq: nat = jn * (p - 1) as nat;
    assert(e * d == 1 + kp * (p - 1) as nat) by (nonlinear_arith)
        requires
            e * d == 1 + j * phi,
            phi == (p - 1) * (q - 1),
            kp == jn * (q - 1),
            jn == j,
            p >= 2,
            q >= 2,
    ;
    assert(e * d == 1 + kq * (q - 1) as nat) by (nonlinear_arith)
        requires
            e * d == 1 + j * phi,
            phi == (p - 1) * (q - 1),
            kq == jn * (p - 1),
            jn == j,
            p >= 2,
            q >= 2,
    ;
    let x = pow(m as int, e * d);
    lemma_pow_one_plus_multiple(m as int, p, kp);
    lemma_pow_one_plus_multiple(m as int, q, kq);
    lemma_crt_two_primes(x, m as int, p, q);
    lemma_small_mod(m, (p * q) as nat);
    // (m^e mod n)^d mod n == m^(e d) mod n
    lemma_pow_mod_noop(pow(m as int, e), d, n);
    lemma_pow_multiplies(m as int, e, d);
}

} // verus!
